//! Text transmutations: each kind maps one input string to one output
//! string, chosen by a name given on the command line.

use vstd::prelude::*;

use crate::strutil::{
    code_to_char, is_scalar_value, join_words, lemma_char_cast, lower_of, push_char,
    spec_join_words, spec_words, split_words, str_eq, to_lowercase,
};

verus! {

/// Names what `str::to_uppercase` returns: a function of the
/// characters alone.
pub uninterp spec fn upper_of(s: Seq<char>) -> Seq<char>;

/// Relies on `str::to_uppercase`: the uppercase mapping of the string,
/// determined by its characters alone.
#[verifier::external_body]
fn to_uppercase(s: &str) -> (r: String)
    ensures
        r@ == upper_of(s@),
{
    s.to_uppercase()
}

/// Names what `slug::slugify` returns: a function of the characters
/// alone.
pub uninterp spec fn slug_of(s: Seq<char>) -> Seq<char>;

/// Relies on `slug::slugify`: the ascii slug of the string,
/// determined by its characters alone.
#[verifier::external_body]
fn slugify(s: &str) -> (r: String)
    ensures
        r@ == slug_of(s@),
{
    slug::slugify(s)
}

/// Names what `char::is_alphanumeric` returns for each character.
pub uninterp spec fn alnum_of(c: char) -> bool;

/// Relies on `char::is_alphanumeric`: a property of the character
/// alone.
#[verifier::external_body]
fn char_is_alphanumeric(c: char) -> (r: bool)
    ensures
        r == alnum_of(c),
{
    c.is_alphanumeric()
}

/// The ascii uppercase of a character: `a` to `z` move to `A` to `Z`,
/// everything else stays.
pub open spec fn spec_ascii_upper(c: char) -> char {
    if 'a' <= c && c <= 'z' {
        ((c as u32) - 32) as char
    } else {
        c
    }
}

/// The ascii uppercase of a character, as `spec_ascii_upper` says.
pub fn ascii_upper(c: char) -> (r: char)
    ensures
        r == spec_ascii_upper(c),
{
    if 'a' <= c && c <= 'z' {
        let u = (c as u32) - 32;
        proof {
            lemma_char_cast(c);
            assert(is_scalar_value(u));
        }
        match code_to_char(u) {
            Some(up) => up,
            None => c,
        }
    } else {
        c
    }
}

/// Camel casing: alphanumeric characters are kept, the first of each
/// alphanumeric run raised to ascii uppercase, everything else
/// dropped. `cap` says whether the next kept character starts a run.
pub open spec fn spec_camel_from(s: Seq<char>, cap: bool) -> Seq<char>
    decreases s.len(),
{
    if s.len() == 0 {
        Seq::<char>::empty()
    } else if alnum_of(s[0]) {
        seq![if cap {
            spec_ascii_upper(s[0])
        } else {
            s[0]
        }] + spec_camel_from(s.drop_first(), false)
    } else {
        spec_camel_from(s.drop_first(), true)
    }
}

/// The camel-cased form of a string.
pub open spec fn spec_camel(s: Seq<char>) -> Seq<char> {
    spec_camel_from(s, true)
}

/// Camel-cases the input, as `spec_camel` says.
pub fn to_camel_case(input: &str) -> (r: String)
    ensures
        r@ == spec_camel(input@),
{
    let n = input.unicode_len();
    let mut result = String::new();
    let mut capitalize_next = true;
    let mut i: usize = 0;
    proof {
        assert(input@.skip(0) =~= input@);
    }
    while i < n
        invariant
            i <= n,
            n == input@.len(),
            spec_camel(input@) == result@ + spec_camel_from(input@.skip(i as int), capitalize_next),
        decreases n - i,
    {
        let c = input.get_char(i);
        proof {
            assert(input@.skip(i as int)[0] == input@[i as int]);
            assert(input@.skip(i as int).drop_first() =~= input@.skip(i + 1));
        }
        if char_is_alphanumeric(c) {
            if capitalize_next {
                push_char(&mut result, ascii_upper(c));
                capitalize_next = false;
            } else {
                push_char(&mut result, c);
            }
            proof {
                assert(result@ + spec_camel_from(input@.skip(i + 1), false) =~= spec_camel(
                    input@,
                ));
            }
        } else {
            capitalize_next = true;
        }
        i += 1;
    }
    proof {
        assert(input@.skip(n as int) =~= Seq::<char>::empty());
        assert(result@ + Seq::<char>::empty() =~= result@);
    }
    result
}

/// Reverse talk: every whitespace-separated word reversed, the words
/// joined by single spaces.
pub open spec fn spec_reverse_talk(s: Seq<char>) -> Seq<char> {
    spec_join_words(spec_words(s).map_values(|w: Seq<char>| w.reverse()))
}

/// Reverses each word of the input, as `spec_reverse_talk` says.
pub fn reverse_talk(input: &str) -> (r: String)
    ensures
        r@ == spec_reverse_talk(input@),
{
    let words = split_words(input);
    let mut reversed: Vec<String> = Vec::new();
    let mut k: usize = 0;
    proof {
        assert(reversed@.map_values(|w: String| w@) =~= Seq::<Seq<char>>::empty());
        assert(spec_words(input@).map_values(|w: Seq<char>| w.reverse()).take(0) =~= Seq::<
            Seq<char>,
        >::empty());
    }
    while k < words.len()
        invariant
            k <= words@.len(),
            words@.map_values(|w: String| w@) == spec_words(input@),
            reversed@.map_values(|w: String| w@) == spec_words(input@).map_values(
                |w: Seq<char>| w.reverse(),
            ).take(k as int),
        decreases words@.len() - k,
    {
        let w = &words[k];
        let m = w.as_str().unicode_len();
        let mut rev = String::new();
        let mut j: usize = m;
        while j > 0
            invariant
                j <= m,
                m == w@.len(),
                rev@.len() == m - j,
                forall|t: int| 0 <= t < rev@.len() ==> rev@[t] == w@[m - 1 - t],
            decreases j,
        {
            push_char(&mut rev, w.as_str().get_char(j - 1));
            j -= 1;
        }
        proof {
            assert(rev@ =~= w@.reverse());
        }
        let ghost old_rev = reversed@;
        reversed.push(rev);
        proof {
            let f = |w: Seq<char>| w.reverse();
            let g = |w: String| w@;
            assert(reversed@.map_values(g) =~= old_rev.map_values(g).push(w@.reverse()));
            assert(words@.map_values(g)[k as int] == words@[k as int]@);
            assert(spec_words(input@).map_values(f).take(k + 1) =~= spec_words(input@).map_values(
                f,
            ).take(k as int).push(spec_words(input@)[k as int].reverse()));
        }
        k += 1;
    }
    proof {
        let f = |w: Seq<char>| w.reverse();
        assert(spec_words(input@).map_values(f).take(words@.len() as int) =~= spec_words(
            input@,
        ).map_values(f));
    }
    join_words(&reversed, 0)
}

/// The spaces of a string removed; every other character stays.
pub open spec fn spec_no_spaces(s: Seq<char>) -> Seq<char>
    decreases s.len(),
{
    if s.len() == 0 {
        Seq::<char>::empty()
    } else if s[0] == ' ' {
        spec_no_spaces(s.drop_first())
    } else {
        seq![s[0]] + spec_no_spaces(s.drop_first())
    }
}

/// Removes the space characters, as `spec_no_spaces` says.
pub fn remove_spaces(input: &str) -> (r: String)
    ensures
        r@ == spec_no_spaces(input@),
{
    let n = input.unicode_len();
    let mut result = String::new();
    let mut i: usize = 0;
    proof {
        assert(input@.skip(0) =~= input@);
    }
    while i < n
        invariant
            i <= n,
            n == input@.len(),
            spec_no_spaces(input@) == result@ + spec_no_spaces(input@.skip(i as int)),
        decreases n - i,
    {
        let c = input.get_char(i);
        proof {
            assert(input@.skip(i as int)[0] == input@[i as int]);
            assert(input@.skip(i as int).drop_first() =~= input@.skip(i + 1));
        }
        if c != ' ' {
            push_char(&mut result, c);
            proof {
                assert(result@ + spec_no_spaces(input@.skip(i + 1)) =~= spec_no_spaces(input@));
            }
        }
        i += 1;
    }
    proof {
        assert(input@.skip(n as int) =~= Seq::<char>::empty());
        assert(result@ + Seq::<char>::empty() =~= result@);
    }
    result
}

/// The supported transmutations.
#[derive(Debug, PartialEq, Eq, Structural, Clone, Copy)]
pub enum TransmutationKind {
    Lowercase,
    Uppercase,
    NoSpaces,
    Slugify,
    Camelcase,
    ReverseTalk,
}

/// The name each kind goes by on the command line.
pub open spec fn spec_kind_name(k: TransmutationKind) -> Seq<char> {
    match k {
        TransmutationKind::Lowercase => "lowercase"@,
        TransmutationKind::Uppercase => "uppercase"@,
        TransmutationKind::NoSpaces => "no-spaces"@,
        TransmutationKind::Slugify => "slugify"@,
        TransmutationKind::Camelcase => "camelcase"@,
        TransmutationKind::ReverseTalk => "reverse-talk"@,
    }
}

/// The kind a name denotes, if any.
pub open spec fn spec_kind_of(s: Seq<char>) -> Option<TransmutationKind> {
    if s == "lowercase"@ {
        Some(TransmutationKind::Lowercase)
    } else if s == "uppercase"@ {
        Some(TransmutationKind::Uppercase)
    } else if s == "no-spaces"@ {
        Some(TransmutationKind::NoSpaces)
    } else if s == "slugify"@ {
        Some(TransmutationKind::Slugify)
    } else if s == "camelcase"@ {
        Some(TransmutationKind::Camelcase)
    } else if s == "reverse-talk"@ {
        Some(TransmutationKind::ReverseTalk)
    } else {
        None
    }
}

impl TransmutationKind {
    /// The kind named by the given text, as `spec_kind_of` says.
    pub fn from_str(text: &str) -> (r: Option<Self>)
        ensures
            r == spec_kind_of(text@),
    {
        if str_eq(text, "lowercase") {
            Some(TransmutationKind::Lowercase)
        } else if str_eq(text, "uppercase") {
            Some(TransmutationKind::Uppercase)
        } else if str_eq(text, "no-spaces") {
            Some(TransmutationKind::NoSpaces)
        } else if str_eq(text, "slugify") {
            Some(TransmutationKind::Slugify)
        } else if str_eq(text, "camelcase") {
            Some(TransmutationKind::Camelcase)
        } else if str_eq(text, "reverse-talk") {
            Some(TransmutationKind::ReverseTalk)
        } else {
            None
        }
    }

    /// Every kind, in the order they are documented.
    pub fn all_variants() -> (r: Vec<Self>)
        ensures
            r@ == seq![
                TransmutationKind::Lowercase,
                TransmutationKind::Uppercase,
                TransmutationKind::NoSpaces,
                TransmutationKind::Slugify,
                TransmutationKind::Camelcase,
                TransmutationKind::ReverseTalk,
            ],
    {
        let mut variants: Vec<TransmutationKind> = Vec::new();
        variants.push(TransmutationKind::Lowercase);
        variants.push(TransmutationKind::Uppercase);
        variants.push(TransmutationKind::NoSpaces);
        variants.push(TransmutationKind::Slugify);
        variants.push(TransmutationKind::Camelcase);
        variants.push(TransmutationKind::ReverseTalk);
        proof {
            assert(variants@ =~= seq![
                TransmutationKind::Lowercase,
                TransmutationKind::Uppercase,
                TransmutationKind::NoSpaces,
                TransmutationKind::Slugify,
                TransmutationKind::Camelcase,
                TransmutationKind::ReverseTalk,
            ]);
        }
        variants
    }

    /// The kind's command-line name, as `spec_kind_name` says.
    pub fn to_string(&self) -> (r: String)
        ensures
            r@ == spec_kind_name(*self),
    {
        match self {
            TransmutationKind::Lowercase => String::from_str("lowercase"),
            TransmutationKind::Uppercase => String::from_str("uppercase"),
            TransmutationKind::NoSpaces => String::from_str("no-spaces"),
            TransmutationKind::Slugify => String::from_str("slugify"),
            TransmutationKind::Camelcase => String::from_str("camelcase"),
            TransmutationKind::ReverseTalk => String::from_str("reverse-talk"),
        }
    }
}

/// What `transmute` returns for each kind.
pub open spec fn spec_transmute(s: Seq<char>, kind: TransmutationKind) -> Seq<char> {
    match kind {
        TransmutationKind::Lowercase => lower_of(s),
        TransmutationKind::Uppercase => upper_of(s),
        TransmutationKind::NoSpaces => spec_no_spaces(s),
        TransmutationKind::Slugify => slug_of(s),
        TransmutationKind::Camelcase => spec_camel(s),
        TransmutationKind::ReverseTalk => spec_reverse_talk(s),
    }
}

/// Applies the chosen transmutation to the input text.
pub fn transmute(input_text: &str, kind: TransmutationKind) -> (r: String)
    ensures
        r@ == spec_transmute(input_text@, kind),
{
    match kind {
        TransmutationKind::Lowercase => to_lowercase(input_text),
        TransmutationKind::Uppercase => to_uppercase(input_text),
        TransmutationKind::NoSpaces => remove_spaces(input_text),
        TransmutationKind::Slugify => slugify(input_text),
        TransmutationKind::Camelcase => to_camel_case(input_text),
        TransmutationKind::ReverseTalk => reverse_talk(input_text),
    }
}

/// A plain error with a message.
#[derive(Debug)]
pub struct Error {
    message: String,
}

impl View for Error {
    type V = Seq<char>;

    closed spec fn view(&self) -> Seq<char> {
        self.message@
    }
}

impl Error {
    pub fn new(message: String) -> (r: Self)
        ensures
            r@ == message@,
    {
        Error { message }
    }

    /// The message the error carries.
    pub fn message(&self) -> (r: &String)
        ensures
            r@ == self@,
    {
        &self.message
    }
}

/// A boxed error with a message.
#[derive(Debug)]
pub struct CustomError {
    message: String,
}

impl View for CustomError {
    type V = Seq<char>;

    closed spec fn view(&self) -> Seq<char> {
        self.message@
    }
}

impl CustomError {
    pub fn new(message: &str) -> (r: Box<Self>)
        ensures
            r@ == message@,
    {
        Box::new(CustomError { message: message.to_owned() })
    }

    /// The message the error carries.
    pub fn message(&self) -> (r: &String)
        ensures
            r@ == self@,
    {
        &self.message
    }
}

/// The supported names, bracketed and comma-separated, for help
/// texts.
pub fn stringify_possible_transmutations() -> (r: String)
    ensures
        r@ == spec_supported_names(),
{
    let mut out = String::from_str("[");
    out.append("lowercase");
    out.append(", ");
    out.append("uppercase");
    out.append(", ");
    out.append("no-spaces");
    out.append(", ");
    out.append("slugify");
    out.append(", ");
    out.append("camelcase");
    out.append(", ");
    out.append("reverse-talk");
    out.append("]");
    proof {
        assert(out@ =~= "["@ + spec_kind_name(TransmutationKind::Lowercase) + ", "@
            + spec_kind_name(TransmutationKind::Uppercase) + ", "@ + spec_kind_name(
            TransmutationKind::NoSpaces,
        ) + ", "@ + spec_kind_name(TransmutationKind::Slugify) + ", "@ + spec_kind_name(
            TransmutationKind::Camelcase,
        ) + ", "@ + spec_kind_name(TransmutationKind::ReverseTalk) + "]"@);
    }
    out
}

/// What one line of the interactive prompt asks for.
pub enum StdioRequest {
    /// The line held nothing to do.
    Empty,
    /// The line's first word asked to leave the prompt.
    Exit,
    /// Apply the named transmutation to the text after the name.
    Apply { kind_name: String, text: String },
}

/// Mathematical model of `StdioRequest`.
pub ghost enum StdioRequestV {
    Empty,
    Exit,
    Apply { kind_name: Seq<char>, text: Seq<char> },
}

impl View for StdioRequest {
    type V = StdioRequestV;

    open spec fn view(&self) -> StdioRequestV {
        match self {
            StdioRequest::Empty => StdioRequestV::Empty,
            StdioRequest::Exit => StdioRequestV::Exit,
            StdioRequest::Apply { kind_name, text } => StdioRequestV::Apply {
                kind_name: kind_name@,
                text: text@,
            },
        }
    }
}

/// How an interactive line is read: its first word names the
/// transmutation and the remaining words, joined by single spaces, are
/// the text; a line whose first word is `exit` ends the prompt; a
/// blank line asks for nothing.
pub open spec fn spec_parse_request(line: Seq<char>) -> StdioRequestV {
    let ws = spec_words(line);
    if ws.len() == 0 {
        StdioRequestV::Empty
    } else if ws[0] == "exit"@ {
        StdioRequestV::Exit
    } else {
        StdioRequestV::Apply { kind_name: ws[0], text: spec_join_words(ws.skip(1)) }
    }
}

/// Reads one interactive line, as `spec_parse_request` says.
pub fn parse_request(line: &str) -> (r: StdioRequest)
    ensures
        r@ == spec_parse_request(line@),
{
    let mut ws = split_words(line);
    proof {
        assert(ws@.map_values(|w: String| w@).len() == ws@.len());
    }
    if ws.len() == 0 {
        return StdioRequest::Empty;
    }
    proof {
        assert(ws@.map_values(|w: String| w@)[0] == ws@[0]@);
    }
    if str_eq(ws[0].as_str(), "exit") {
        return StdioRequest::Exit;
    }
    let text = join_words(&ws, 1);
    proof {
        assert(ws@.map_values(|w: String| w@).skip(1) =~= spec_words(line@).skip(1));
    }
    let kind_name = ws.remove(0);
    StdioRequest::Apply { kind_name, text }
}

/// What `stringify_possible_transmutations` returns.
pub open spec fn spec_supported_names() -> Seq<char> {
    "["@ + spec_kind_name(TransmutationKind::Lowercase) + ", "@ + spec_kind_name(
        TransmutationKind::Uppercase,
    ) + ", "@ + spec_kind_name(TransmutationKind::NoSpaces) + ", "@ + spec_kind_name(
        TransmutationKind::Slugify,
    ) + ", "@ + spec_kind_name(TransmutationKind::Camelcase) + ", "@ + spec_kind_name(
        TransmutationKind::ReverseTalk,
    ) + "]"@
}

/// Reads the transmutation kind from the program arguments: the first
/// argument after the program name must name a supported kind. The
/// error says what was wrong and lists the supported names.
pub fn parse_args(args: &[String]) -> (r: Result<TransmutationKind, Error>)
    ensures
        match r {
            Ok(k) => args@.len() >= 2 && spec_kind_of(args@[1]@) == Some(k),
            Err(e) => {
                &&& args@.len() < 2 || spec_kind_of(args@[1]@) is None
                &&& e@ == (if args@.len() < 2 {
                    "You have to provide transmutation kind as CLI argument.\nFollowing are supported: "@
                        + spec_supported_names()
                } else {
                    "The unsupported transmutation provided: "@ + args@[1]@
                        + ".\nFollowing are supported: "@ + spec_supported_names()
                })
            },
        },
{
    if args.len() < 2 {
        let mut msg = String::from_str(
            "You have to provide transmutation kind as CLI argument.\nFollowing are supported: ",
        );
        let supported = stringify_possible_transmutations();
        msg.append(supported.as_str());
        return Err(Error::new(msg));
    }
    match TransmutationKind::from_str(args[1].as_str()) {
        Some(k) => Ok(k),
        None => {
            let mut msg = String::from_str("The unsupported transmutation provided: ");
            msg.append(args[1].as_str());
            msg.append(".\nFollowing are supported: ");
            let supported = stringify_possible_transmutations();
            msg.append(supported.as_str());
            Err(Error::new(msg))
        },
    }
}

} // verus!
