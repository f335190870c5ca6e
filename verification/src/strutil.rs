use vstd::prelude::*;

verus! {

/// Relies on `String::push`: appends the given character to the end of
/// the string.
#[verifier::external_body]
pub(crate) fn push_char(s: &mut String, c: char)
    ensures
        final(s)@ == old(s)@.push(c),
{
    s.push(c);
}

/// A valid Unicode scalar value: what a `char` may hold.
pub open spec fn is_scalar_value(u: u32) -> bool {
    u < 0xD800 || (0xE000 <= u && u <= 0x10FFFF)
}

/// Relies on `char::from_u32`: returns the character with the given
/// code point exactly when the value is a Unicode scalar value.
pub assume_specification[ char::from_u32 ](v: u32) -> (r: Option<char>)
    ensures
        match r {
            Some(c) => c as u32 == v,
            None => !is_scalar_value(v),
        },
        r is Some <==> is_scalar_value(v),
;

/// Every `char` casts to a Unicode scalar value, and casting that
/// value back yields the same character.
pub proof fn lemma_char_cast(c: char)
    ensures
        is_scalar_value(c as u32),
        ((c as u32) as char) == c,
{
    vstd::utf8::char_is_scalar(c);
    vstd::utf8::char_u32_cast(c, c as u32);
}

/// A character with the Unicode `White_Space` property.
pub open spec fn is_space(c: char) -> bool {
    let u = c as u32;
    (9 <= u && u <= 13) || u == 32 || u == 0x85 || u == 0xA0 || u == 0x1680 || (0x2000 <= u && u
        <= 0x200A) || u == 0x2028 || u == 0x2029 || u == 0x202F || u == 0x205F || u == 0x3000
}

pub fn char_is_space(c: char) -> (r: bool)
    ensures
        r == is_space(c),
{
    let u = c as u32;
    (9 <= u && u <= 13) || u == 32 || u == 0x85 || u == 0xA0 || u == 0x1680 || (0x2000 <= u && u
        <= 0x200A) || u == 0x2028 || u == 0x2029 || u == 0x202F || u == 0x205F || u == 0x3000
}

/// The maximal prefix without whitespace.
pub open spec fn take_word(s: Seq<char>) -> Seq<char>
    decreases s.len(),
{
    if s.len() == 0 {
        Seq::<char>::empty()
    } else if is_space(s[0]) {
        Seq::<char>::empty()
    } else {
        seq![s[0]] + take_word(s.drop_first())
    }
}

pub proof fn lemma_take_word_len(s: Seq<char>)
    ensures
        take_word(s).len() <= s.len(),
        s.len() > 0 && !is_space(s[0]) ==> take_word(s).len() >= 1,
    decreases s.len(),
{
    if s.len() > 0 && !is_space(s[0]) {
        lemma_take_word_len(s.drop_first());
    }
}

/// The word is the prefix up to the first whitespace character.
pub proof fn lemma_take_word_chars(s: Seq<char>, j: int)
    requires
        0 <= j <= s.len(),
        forall|k: int| 0 <= k < j ==> !is_space(#[trigger] s[k]),
        j == s.len() || is_space(s[j]),
    ensures
        take_word(s) == s.subrange(0, j),
    decreases s.len(),
{
    if j == 0 {
        assert(s.subrange(0, 0) =~= Seq::<char>::empty());
    } else {
        let rest = s.drop_first();
        assert(forall|k: int| 0 <= k < j - 1 ==> !is_space(#[trigger] rest[k]));
        lemma_take_word_chars(rest, j - 1);
        assert(take_word(s) =~= s.subrange(0, j));
    }
}

/// The whitespace-separated words of a character sequence, in order.
pub open spec fn spec_words(s: Seq<char>) -> Seq<Seq<char>>
    decreases s.len(),
    via spec_words_decreases
{
    if s.len() == 0 {
        Seq::<Seq<char>>::empty()
    } else if is_space(s[0]) {
        spec_words(s.drop_first())
    } else {
        seq![take_word(s)] + spec_words(s.skip(take_word(s).len() as int))
    }
}

#[via_fn]
proof fn spec_words_decreases(s: Seq<char>) {
    if s.len() > 0 && !is_space(s[0]) {
        lemma_take_word_len(s);
    }
}

/// The words joined with one space between consecutive words.
pub open spec fn spec_join_words(ws: Seq<Seq<char>>) -> Seq<char>
    decreases ws.len(),
{
    if ws.len() == 0 {
        Seq::<char>::empty()
    } else if ws.len() == 1 {
        ws[0]
    } else {
        ws[0] + seq![' '] + spec_join_words(ws.drop_first())
    }
}

/// One sequence is a prefix of the other.
pub open spec fn spec_starts_with(s: Seq<char>, p: Seq<char>) -> bool {
    p.len() <= s.len() && s.subrange(0, p.len() as int) == p
}

pub fn str_starts_with(s: &str, p: &str) -> (r: bool)
    ensures
        r == spec_starts_with(s@, p@),
{
    let n = p.unicode_len();
    let m = s.unicode_len();
    if n > m {
        proof {
            assert(!spec_starts_with(s@, p@));
        }
        return false;
    }
    let mut i: usize = 0;
    while i < n
        invariant
            i <= n,
            n == p@.len(),
            n <= s@.len(),
            m == s@.len(),
            forall|k: int| 0 <= k < i ==> s@[k] == p@[k],
        decreases n - i,
    {
        if s.get_char(i) != p.get_char(i) {
            proof {
                assert(s@.subrange(0, n as int)[i as int] != p@[i as int]);
            }
            return false;
        }
        i += 1;
    }
    proof {
        assert(s@.subrange(0, n as int) =~= p@);
    }
    true
}

/// Character-for-character equality of two strings.
pub fn str_eq(a: &str, b: &str) -> (r: bool)
    ensures
        r == (a@ == b@),
{
    let n = a.unicode_len();
    let m = b.unicode_len();
    if n != m {
        return false;
    }
    let r = str_starts_with(a, b);
    proof {
        if r {
            assert(a@.subrange(0, m as int) =~= a@);
        } else {
            if a@ == b@ {
                assert(a@.subrange(0, m as int) =~= b@);
            }
        }
    }
    r
}

/// Splitting one step: dropping a leading space keeps the words;
/// the words of a sequence that starts a word begin with that word.
pub proof fn lemma_words_step(s: Seq<char>, i: int)
    requires
        0 <= i < s.len(),
    ensures
        is_space(s[i]) ==> spec_words(s.skip(i)) == spec_words(s.skip(i + 1)),
        !is_space(s[i]) ==> spec_words(s.skip(i)) == seq![take_word(s.skip(i))] + spec_words(
            s.skip(i + take_word(s.skip(i)).len() as int),
        ),
{
    let t = s.skip(i);
    assert(t[0] == s[i]);
    if is_space(s[i]) {
        assert(t.drop_first() =~= s.skip(i + 1));
    } else {
        lemma_take_word_len(t);
        assert(t.skip(take_word(t).len() as int) =~= s.skip(i + take_word(t).len() as int));
    }
}

/// The words of a string, as owned strings, in order.
pub fn split_words(s: &str) -> (r: Vec<String>)
    ensures
        r@.map_values(|w: String| w@) == spec_words(s@),
{
    let n = s.unicode_len();
    let mut words: Vec<String> = Vec::new();
    let mut i: usize = 0;
    proof {
        assert(s@.skip(0) =~= s@);
        assert(words@.map_values(|w: String| w@) =~= Seq::<Seq<char>>::empty());
    }
    while i < n
        invariant
            i <= n,
            n == s@.len(),
            spec_words(s@) == words@.map_values(|w: String| w@) + spec_words(s@.skip(i as int)),
        decreases n - i,
    {
        let c = s.get_char(i);
        if char_is_space(c) {
            proof {
                lemma_words_step(s@, i as int);
            }
            i += 1;
        } else {
            // read the word that starts here
            let start = i;
            let mut word = String::new();
            while i < n && !char_is_space(s.get_char(i))
                invariant
                    start <= i <= n,
                    n == s@.len(),
                    word@ == s@.subrange(start as int, i as int),
                    forall|k: int| start <= k < i ==> !is_space(#[trigger] s@[k]),
                decreases n - i,
            {
                let c2 = s.get_char(i);
                push_char(&mut word, c2);
                proof {
                    assert(s@.subrange(start as int, i as int).push(s@[i as int]) =~= s@.subrange(
                        start as int,
                        i + 1,
                    ));
                }
                i += 1;
            }
            proof {
                let t = s@.skip(start as int);
                assert(forall|k: int|
                    0 <= k < i - start ==> !is_space(#[trigger] t[k]) && t[k] == s@[start + k]);
                if i < n {
                    assert(t[i - start] == s@[i as int]);
                }
                lemma_take_word_chars(t, i - start);
                assert(t.subrange(0, i - start) =~= s@.subrange(start as int, i as int));
                lemma_words_step(s@, start as int);
                assert(take_word(t).len() == i - start);
            }
            let ghost old_words = words@;
            words.push(word);
            proof {
                assert(words@.map_values(|w: String| w@) =~= old_words.map_values(|w: String| w@)
                    + seq![s@.subrange(start as int, i as int)]);
                assert(old_words.map_values(|w: String| w@) + (seq![
                    s@.subrange(start as int, i as int),
                ] + spec_words(s@.skip(i as int))) =~= (old_words.map_values(|w: String| w@)
                    + seq![s@.subrange(start as int, i as int)]) + spec_words(s@.skip(i as int)));
            }
        }
    }
    proof {
        assert(s@.skip(n as int) =~= Seq::<char>::empty());
        assert(words@.map_values(|w: String| w@) + Seq::<Seq<char>>::empty() =~= words@.map_values(
            |w: String| w@,
        ));
    }
    words
}

/// Joining one step: a word appended at the end.
pub proof fn lemma_join_words_push(ws: Seq<Seq<char>>, w: Seq<char>)
    requires
        ws.len() > 0,
    ensures
        spec_join_words(ws.push(w)) == spec_join_words(ws) + seq![' '] + w,
    decreases ws.len(),
{
    if ws.len() == 1 {
        assert(ws.push(w)[0] == ws[0]);
        assert(ws.push(w).drop_first() =~= seq![w]);
        assert(spec_join_words(seq![w]) == w);
        assert(spec_join_words(ws.push(w)) =~= spec_join_words(ws) + seq![' '] + w);
    } else {
        assert(ws.push(w)[0] == ws[0]);
        assert(ws.push(w).drop_first() =~= ws.drop_first().push(w));
        lemma_join_words_push(ws.drop_first(), w);
        assert(spec_join_words(ws.push(w)) =~= spec_join_words(ws) + seq![' '] + w);
    }
}

/// The given words joined with single spaces.
pub fn join_words(ws: &Vec<String>, from: usize) -> (r: String)
    requires
        from <= ws@.len(),
    ensures
        r@ == spec_join_words(ws@.map_values(|w: String| w@).skip(from as int)),
{
    let ghost all = ws@.map_values(|w: String| w@);
    let mut out = String::new();
    let mut k: usize = from;
    if k < ws.len() {
        out.append(ws[k].as_str());
        proof {
            assert(all.skip(from as int).take(1) =~= seq![all[from as int]]);
            assert(spec_join_words(seq![all[from as int]]) == all[from as int]);
        }
        k += 1;
    }
    while k < ws.len()
        invariant
            from <= k <= ws@.len(),
            all == ws@.map_values(|w: String| w@),
            from == ws@.len() ==> k == from,
            from < ws@.len() ==> from < k,
            out@ == spec_join_words(all.skip(from as int).take(k - from)),
        decreases ws@.len() - k,
    {
        out.append(" ");
        out.append(ws[k].as_str());
        proof {
            let pre = all.skip(from as int).take(k - from);
            assert(pre.len() > 0);
            lemma_join_words_push(pre, all[k as int]);
            reveal_strlit(" ");
            assert(" "@ =~= seq![' ']);
            assert(all.skip(from as int).take(k + 1 - from) =~= pre.push(all[k as int]));
        }
        k += 1;
    }
    proof {
        if from == ws@.len() {
            assert(all.skip(from as int) =~= Seq::<Seq<char>>::empty());
        } else {
            assert(all.skip(from as int).take(ws@.len() - from) =~= all.skip(from as int));
        }
    }
    out
}

/// Names what `str::to_lowercase` returns: a function of the
/// characters alone.
pub uninterp spec fn lower_of(s: Seq<char>) -> Seq<char>;

/// Relies on `str::to_lowercase`: the lowercase mapping of the string,
/// determined by its characters alone.
#[verifier::external_body]
pub(crate) fn to_lowercase(s: &str) -> (r: String)
    ensures
        r@ == lower_of(s@),
{
    s.to_lowercase()
}

/// The character with code point `u`, when `u` is a scalar value.
pub fn code_to_char(u: u32) -> (r: Option<char>)
    ensures
        r == if is_scalar_value(u) {
            Some(u as char)
        } else {
            None::<char>
        },
{
    let r = char::from_u32(u);
    proof {
        if let Some(c) = r {
            vstd::utf8::char_u32_cast(c, u);
        }
    }
    r
}

} // verus!

verus! {

/// Casting a scalar value to a character and back yields the value.
pub proof fn lemma_scalar_cast(u: u32)
    requires
        is_scalar_value(u),
    ensures
        (u as char) as u32 == u,
{
}

} // verus!
