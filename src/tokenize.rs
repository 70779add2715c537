use vstd::prelude::*;

verus! {

/// The word-boundary segments of a text, as Unicode (UAX #29) defines them.
pub uninterp spec fn word_bounds_of(text: Seq<char>) -> Seq<Seq<char>>;

/// Whether a character has the Unicode `White_Space` property.
pub uninterp spec fn white_space(c: char) -> bool;

/// Relies on unicode_segmentation's `split_word_bounds`: the segments between
/// word boundaries, which concatenate back to the text.
#[verifier::external_body]
fn split_word_bounds(text: &str) -> (r: Vec<String>)
    ensures
        r@.map_values(|w: String| w@) == word_bounds_of(text@),
{
    unicode_segmentation::UnicodeSegmentation::split_word_bounds(text).map(String::from).collect()
}

/// Relies on `char::is_whitespace`.
#[verifier::external_body]
fn is_whitespace(c: char) -> (r: bool)
    ensures
        r == white_space(c),
{
    c.is_whitespace()
}

/// Relies on `str::chars`: the characters of the text, in order.
#[verifier::external_body]
fn chars_of(text: &str) -> (r: Vec<char>)
    ensures
        r@ == text@,
{
    text.chars().collect()
}

/// A segment is a token when it holds a character that is not white space.
pub open spec fn is_token(seg: Seq<char>) -> bool {
    exists|i: int| 0 <= i < seg.len() && !white_space(#[trigger] seg[i])
}

/// The segments among `segs` that are tokens, in order.
pub open spec fn keep_tokens(segs: Seq<Seq<char>>) -> Seq<Seq<char>>
    decreases segs.len(),
{
    if segs.len() == 0 {
        Seq::empty()
    } else {
        let rest = keep_tokens(segs.drop_last());
        if is_token(segs.last()) {
            rest.push(segs.last())
        } else {
            rest
        }
    }
}

/// The tokens of a text.
pub open spec fn tokens_of(text: Seq<char>) -> Seq<Seq<char>> {
    keep_tokens(word_bounds_of(text))
}

fn has_non_whitespace(seg: &str) -> (r: bool)
    ensures
        r == is_token(seg@),
{
    let cs = chars_of(seg);
    let mut i: usize = 0;
    while i < cs.len()
        invariant
            i <= cs@.len(),
            cs@ == seg@,
            forall|k: int| 0 <= k < i ==> white_space(#[trigger] cs@[k]),
        decreases cs@.len() - i,
    {
        if !is_whitespace(cs[i]) {
            assert(!white_space(seg@[i as int]));
            return true;
        }
        i = i + 1;
    }
    false
}

/// Splits a text at word boundaries and keeps the segments that hold a
/// character other than white space.
pub fn tokenize(s: &str) -> (r: Vec<String>)
    ensures
        r@.map_values(|t: String| t@) == tokens_of(s@),
{
    let segs = split_word_bounds(s);
    let ghost sv = segs@.map_values(|w: String| w@);
    let mut out: Vec<String> = Vec::new();
    let mut i: usize = 0;
    while i < segs.len()
        invariant
            i <= segs@.len(),
            sv == segs@.map_values(|w: String| w@),
            sv == word_bounds_of(s@),
            out@.map_values(|t: String| t@) == keep_tokens(sv.take(i as int)),
        decreases segs@.len() - i,
    {
        assert(sv.take(i as int + 1).drop_last() == sv.take(i as int));
        assert(sv.take(i as int + 1).last() == segs@[i as int]@);
        let seg = &segs[i];
        if has_non_whitespace(seg.as_str()) {
            out.push(seg.clone());
            assert(out@.map_values(|t: String| t@) == keep_tokens(sv.take(i as int)).push(seg@));
        }
        i = i + 1;
    }
    assert(sv.take(segs@.len() as int) == sv);
    out
}

/// The number of tokens in a text.
pub fn token_count(s: &str) -> (r: usize)
    ensures
        r == tokens_of(s@).len(),
{
    let toks = tokenize(s);
    toks.len()
}

} // verus!
