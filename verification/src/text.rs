//! The text model: a string is the sequence of its characters, and the three
//! operations that argument construction rests on (splitting a line into
//! words, joining strings with a separator, replacing a token) are stated over
//! such sequences and computed by verified code.

use vstd::prelude::*;
use vstd::string::*;

verus! {

/// Whether `c` counts as white space when a line is split into words.
pub uninterp spec fn is_whitespace(c: char) -> bool;

/// `char::is_whitespace` of the standard library: the result is a function of
/// the character alone (its Unicode `White_Space` property), named
/// [`is_whitespace`] here; nothing more is claimed of it.
pub assume_specification[ char::is_whitespace ](c: char) -> (b: bool)
    ensures
        b == is_whitespace(c),
;

/// `String::push` of the standard library appends one character at the end.
pub assume_specification[ String::push ](s: &mut String, c: char)
    ensures
        final(s)@ == old(s)@.push(c),
;

/// The length of the longest prefix of `s` that holds no white space.
pub open spec fn word_len(s: Seq<char>) -> nat
    decreases s.len(),
{
    if s.len() == 0 || is_whitespace(s[0]) {
        0
    } else {
        1 + word_len(s.drop_first())
    }
}

/// The words of `s`: its maximal runs of characters that are not white space,
/// from left to right. White space separates words and belongs to none.
pub open spec fn words(s: Seq<char>) -> Seq<Seq<char>>
    decreases s.len(),
    via words_decreases
{
    if s.len() == 0 {
        Seq::empty()
    } else if is_whitespace(s[0]) {
        words(s.drop_first())
    } else {
        seq![s.take(word_len(s) as int)] + words(s.skip(word_len(s) as int))
    }
}

#[via_fn]
proof fn words_decreases(s: Seq<char>) {
    lemma_word_len_bounds(s);
}

/// A word never runs past the end of the text, and is not empty where the
/// text starts with a character that is not white space.
pub proof fn lemma_word_len_bounds(s: Seq<char>)
    ensures
        word_len(s) <= s.len(),
        s.len() > 0 && !is_whitespace(s[0]) ==> word_len(s) >= 1,
    decreases s.len(),
{
    if s.len() > 0 && !is_whitespace(s[0]) {
        lemma_word_len_bounds(s.drop_first());
    }
}

/// A word ends where the text ends or white space begins, and not before.
pub proof fn lemma_word_len_is_maximal(s: Seq<char>)
    ensures
        forall|j: int| 0 <= j < word_len(s) ==> !is_whitespace(#[trigger] s[j]),
        word_len(s) < s.len() ==> is_whitespace(s[word_len(s) as int]),
    decreases s.len(),
{
    lemma_word_len_bounds(s);
    if s.len() > 0 && !is_whitespace(s[0]) {
        let rest = s.drop_first();
        lemma_word_len_is_maximal(rest);
        assert forall|j: int| 0 <= j < word_len(s) implies !is_whitespace(#[trigger] s[j]) by {
            if j > 0 {
                assert(s[j] == rest[j - 1]);
            }
        }
        if word_len(s) < s.len() {
            assert(s[word_len(s) as int] == rest[word_len(rest) as int]);
        }
    }
}

/// No word is empty, and no word holds white space.
pub proof fn lemma_words_are_words(s: Seq<char>)
    ensures
        forall|i: int| 0 <= i < words(s).len() ==> (#[trigger] words(s)[i]).len() > 0,
        forall|i: int, j: int|
            0 <= i < words(s).len() && 0 <= j < words(s)[i].len() ==> !is_whitespace(
                #[trigger] words(s)[i][j],
            ),
    decreases s.len(),
{
    if s.len() == 0 {
        assert(words(s).len() == 0);
    } else if is_whitespace(s[0]) {
        lemma_words_are_words(s.drop_first());
        assert(words(s) == words(s.drop_first()));
    } else {
        let n = word_len(s) as int;
        lemma_word_len_bounds(s);
        lemma_word_len_is_maximal(s);
        lemma_words_are_words(s.skip(n));
        let first = s.take(n);
        let later = words(s.skip(n));
        let all = words(s);
        assert(all == seq![first] + later);
        assert forall|i: int| 0 <= i < all.len() implies (#[trigger] all[i]).len() > 0 by {
            if i > 0 {
                assert(all[i] == later[i - 1]);
            }
        }
        assert forall|i: int, j: int|
            0 <= i < all.len() && 0 <= j < all[i].len() implies !is_whitespace(
            #[trigger] all[i][j],
        ) by {
            if i > 0 {
                assert(all[i] == later[i - 1]);
                assert(!is_whitespace(later[i - 1][j]));
            } else {
                assert(all[0][j] == s[j]);
            }
        }
    }
}

/// The strings of `parts` in order, with `sep` between each two neighbours.
pub open spec fn joined(parts: Seq<Seq<char>>, sep: Seq<char>) -> Seq<char>
    decreases parts.len(),
{
    if parts.len() == 0 {
        Seq::empty()
    } else if parts.len() == 1 {
        parts[0]
    } else {
        parts[0] + sep + joined(parts.drop_first(), sep)
    }
}

/// Whether `token` occurs in `s` as a contiguous piece.
pub open spec fn occurs_in(token: Seq<char>, s: Seq<char>) -> bool {
    exists|i: int|
        0 <= i && i + token.len() <= s.len() && #[trigger] s.subrange(i, i + token.len()) == token
}

/// `s` with every occurrence of `token` replaced by `with`. Occurrences are
/// taken from left to right and do not overlap; the empty token occurs once
/// before every character and once at the end.
pub open spec fn replaced(s: Seq<char>, token: Seq<char>, with: Seq<char>) -> Seq<char>
    decreases s.len(),
{
    if token.len() == 0 {
        if s.len() == 0 {
            with
        } else {
            with + seq![s[0]] + replaced(s.drop_first(), token, with)
        }
    } else if token.is_prefix_of(s) {
        with + replaced(s.skip(token.len() as int), token, with)
    } else if s.len() == 0 {
        s
    } else {
        seq![s[0]] + replaced(s.drop_first(), token, with)
    }
}

/// Where the token does not occur, replacing it changes nothing.
pub proof fn lemma_replaced_without_occurrence(s: Seq<char>, token: Seq<char>, with: Seq<char>)
    requires
        !occurs_in(token, s),
    ensures
        replaced(s, token, with) == s,
    decreases s.len(),
{
    if token.len() == 0 {
        assert(s.subrange(0int, 0int + token.len()) =~= token);
    } else if token.is_prefix_of(s) {
        assert(s.subrange(0int, 0int + token.len()) =~= token);
    } else if s.len() > 0 {
        let rest = s.drop_first();
        if occurs_in(token, rest) {
            let i = choose|i: int|
                0 <= i && i + token.len() <= rest.len() && #[trigger] rest.subrange(
                    i,
                    i + token.len(),
                ) == token;
            assert(s.subrange(i + 1, i + 1 + token.len()) =~= rest.subrange(i, i + token.len()));
        }
        lemma_replaced_without_occurrence(rest, token, with);
        assert(seq![s[0]] + rest =~= s);
    }
}

/// The characters of `s`, in order.
pub fn chars_of(s: &str) -> (chars: Vec<char>)
    ensures
        chars@ == s@,
{
    let mut chars: Vec<char> = Vec::new();
    for c in it: s.chars()
        invariant
            chars@ == it.seq().take(it.index() as int),
    {
        chars.push(c);
    }
    chars
}

/// Joining one more string at the end: the separator comes before it unless
/// it is the first.
pub proof fn lemma_joined_push(parts: Seq<Seq<char>>, last: Seq<char>, sep: Seq<char>)
    ensures
        joined(parts.push(last), sep) == if parts.len() == 0 {
            last
        } else {
            joined(parts, sep) + sep + last
        },
    decreases parts.len(),
{
    let all = parts.push(last);
    if parts.len() == 0 {
        assert(all[0] == last);
    } else {
        assert(all.drop_first() =~= parts.drop_first().push(last));
        lemma_joined_push(parts.drop_first(), last, sep);
        if parts.len() == 1 {
            assert(all[0] == parts[0]);
        } else {
            assert(joined(all, sep) =~= joined(parts, sep) + sep + last);
        }
    }
}

/// Joins `parts` into one string, with `sep` between each two neighbours.
pub fn join(parts: &[String], sep: &str) -> (line: String)
    ensures
        line@ == joined(parts.deep_view(), sep@),
{
    let mut line = String::new();
    let mut i: usize = 0;
    while i < parts.len()
        invariant
            i <= parts.len(),
            line@ == joined(parts.deep_view().take(i as int), sep@),
        decreases parts.len() - i,
    {
        proof {
            let done = parts.deep_view().take(i as int);
            assert(parts.deep_view().take(i + 1) =~= done.push(parts[i as int]@));
            lemma_joined_push(done, parts[i as int]@, sep@);
        }
        if i > 0 {
            line.append(sep);
        }
        line.append(parts[i].as_str());
        i += 1;
    }
    assert(parts.deep_view().take(i as int) =~= parts.deep_view());
    line
}

/// Splits `s` into its words.
pub fn split_whitespace(s: &str) -> (parts: Vec<String>)
    ensures
        parts.deep_view() == words(s@),
{
    let text = chars_of(s);
    let mut parts: Vec<String> = Vec::new();
    let mut i: usize = 0;
    assert(text@.skip(0) =~= text@);
    assert(parts.deep_view() + words(text@) =~= words(text@));
    while i < text.len()
        invariant
            i <= text.len(),
            text@ == s@,
            parts.deep_view() + words(text@.skip(i as int)) == words(text@),
        decreases text.len() - i,
    {
        let ghost rest = text@.skip(i as int);
        if text[i].is_whitespace() {
            assert(rest.drop_first() =~= text@.skip(i + 1));
            i += 1;
        } else {
            let ghost start = i;
            let ghost before = parts.deep_view();
            let mut word = String::new();
            while i < text.len() && !text[i].is_whitespace()
                invariant
                    start <= i <= text.len(),
                    word@ == text@.subrange(start as int, i as int),
                    word_len(rest) == (i - start) + word_len(text@.skip(i as int)),
                    rest == text@.skip(start as int),
                decreases text.len() - i,
            {
                assert(text@.skip(i as int).drop_first() =~= text@.skip(i + 1));
                assert(text@.subrange(start as int, i + 1) =~= word@.push(text@[i as int]));
                word.push(text[i]);
                i += 1;
            }
            proof {
                assert(word_len(rest) == i - start);
                assert(rest.take(word_len(rest) as int) =~= word@);
                assert(rest.skip(word_len(rest) as int) =~= text@.skip(i as int));
            }
            parts.push(word);
            assert(parts.deep_view() =~= before.push(word@));
            assert(before.push(word@) =~= before + seq![word@]);
        }
    }
    assert(parts.deep_view() + Seq::<Seq<char>>::empty() =~= parts.deep_view());
    parts
}

/// Whether `token` stands in `text` at position `at`.
fn stands_at(text: &Vec<char>, at: usize, token: &Vec<char>) -> (found: bool)
    requires
        at <= text.len(),
    ensures
        found == token@.is_prefix_of(text@.skip(at as int)),
{
    if token.len() > text.len() - at {
        return false;
    }
    let ghost rest = text@.skip(at as int);
    let mut k: usize = 0;
    while k < token.len()
        invariant
            k <= token.len(),
            at + token.len() <= text.len(),
            rest == text@.skip(at as int),
            forall|j: int| 0 <= j < k ==> token@[j] == rest[j],
        decreases token.len() - k,
    {
        if token[k] != text[at + k] {
            assert(rest.subrange(0, token@.len() as int)[k as int] != token@[k as int]);
            return false;
        }
        k += 1;
    }
    assert(token@ =~= rest.subrange(0, token@.len() as int));
    true
}

/// Replaces every occurrence of `token` in `s` by `with`.
pub fn replace(s: &str, token: &str, with: &str) -> (out: String)
    ensures
        out@ == replaced(s@, token@, with@),
{
    let text = chars_of(s);
    let tok = chars_of(token);
    let mut out = String::new();
    let mut i: usize = 0;
    assert(text@.skip(0) =~= text@);
    assert(out@ + replaced(text@, tok@, with@) =~= replaced(text@, tok@, with@));
    while i < text.len()
        invariant
            i <= text.len(),
            text@ == s@,
            tok@ == token@,
            out@ + replaced(text@.skip(i as int), tok@, with@) == replaced(text@, tok@, with@),
        decreases text.len() - i,
    {
        let ghost rest = text@.skip(i as int);
        let ghost before = out@;
        if tok.len() == 0 {
            assert(rest.drop_first() =~= text@.skip(i + 1));
            out.append(with);
            out.push(text[i]);
            assert(out@ + replaced(text@.skip(i + 1), tok@, with@) =~= before + replaced(
                rest,
                tok@,
                with@,
            ));
            i += 1;
        } else if stands_at(&text, i, &tok) {
            assert(rest.skip(tok@.len() as int) =~= text@.skip(i + tok@.len()));
            out.append(with);
            assert(out@ + replaced(text@.skip(i + tok@.len()), tok@, with@) =~= before + replaced(
                rest,
                tok@,
                with@,
            ));
            i += tok.len();
        } else {
            assert(rest.drop_first() =~= text@.skip(i + 1));
            out.push(text[i]);
            assert(out@ + replaced(text@.skip(i + 1), tok@, with@) =~= before + replaced(
                rest,
                tok@,
                with@,
            ));
            i += 1;
        }
    }
    let ghost before = out@;
    if tok.len() == 0 {
        out.append(with);
    }
    assert(out@ =~= before + replaced(text@.skip(i as int), tok@, with@));
    out
}

} // verus!
