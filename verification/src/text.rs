use vstd::prelude::*;
use vstd::string::{StrSliceExecFns, StringExecFns, StringSliceAdditionalSpecFns};
use vstd::utf8::{decode_utf8, encode_utf8, encode_utf8_decode_utf8};

verus! {

broadcast use vstd::string::group_string_axioms;

/// `String::push`: appends one character to the end of the string.
#[verifier::external_body]
pub(crate) fn push_char(s: &mut String, c: char)
    ensures
        final(s)@ == old(s)@.push(c),
{
    s.push(c);
}

/// The characters of `s`, in order.
pub fn chars_of(s: &str) -> (v: Vec<char>)
    ensures
        v@ == s@,
{
    let mut v: Vec<char> = Vec::new();
    for c in it: s.chars()
        invariant
            v@ == it.seq().take(it.index()),
    {
        v.push(c);
    }
    v
}

/// The first `n` characters of `s` (all of `s` when it is shorter).
pub fn take_chars(s: &str, n: usize) -> (r: String)
    ensures
        r@ == s@.take(if n <= s@.len() { n as int } else { s@.len() as int }),
{
    let len = s.unicode_len();
    let m = if n <= len { n } else { len };
    let head = s.substring_char(0, m);
    head.to_string()
}

/// Number of bytes in the UTF-8 encoding of `s`.
pub open spec fn byte_len(s: Seq<char>) -> nat {
    encode_utf8(s).len()
}

/// The first `n` characters of `s`, or all of them when there are fewer.
pub open spec fn take_at_most(s: Seq<char>, n: nat) -> Seq<char> {
    if n <= s.len() {
        s.take(n as int)
    } else {
        s
    }
}

/// Every character takes at least one byte.
pub proof fn lemma_byte_len_at_least_chars(s: Seq<char>)
    ensures
        s.len() <= byte_len(s),
    decreases s.len(),
{
    if s.len() > 0 {
        lemma_byte_len_at_least_chars(s.drop_first());
    }
}

/// The characters after the last `/` of `s` (all of `s` when it has none).
pub open spec fn last_component(s: Seq<char>) -> Seq<char>
    decreases s.len(),
{
    if s.len() == 0 {
        s
    } else if s.last() == '/' {
        Seq::empty()
    } else {
        last_component(s.drop_last()).push(s.last())
    }
}

/// The file name of `path`: what follows its last `/`.
pub fn file_name(path: &str) -> (r: String)
    ensures
        r@ == last_component(path@),
{
    let cs = chars_of(path);
    let mut name = String::new();
    let mut i: usize = 0;
    while i < cs.len()
        invariant
            cs@ == path@,
            i <= cs@.len(),
            name@ == last_component(cs@.take(i as int)),
        decreases cs@.len() - i,
    {
        assert(cs@.take(i + 1).drop_last() =~= cs@.take(i as int));
        assert(cs@.take(i + 1).last() == cs@[i as int]);
        if cs[i] == '/' {
            name = String::new();
        } else {
            push_char(&mut name, cs[i]);
        }
        i = i + 1;
    }
    assert(cs@.take(i as int) =~= cs@);
    name
}

/// A path shortened for display in `max` columns: the whole path when its
/// encoding fits in `max` bytes; else its first `max` characters when `max`
/// is at most two; else its file name when that fits; else the file name's
/// first `max - 2` characters followed by `..`.
pub open spec fn truncated_path(path: Seq<char>, max: nat) -> Seq<char> {
    if byte_len(path) <= max {
        path
    } else if max <= 2 {
        take_at_most(path, max)
    } else if byte_len(last_component(path)) <= max {
        last_component(path)
    } else {
        take_at_most(last_component(path), (max - 2) as nat) + seq!['.', '.']
    }
}

/// Shorten `path` for display in `max` columns.
pub fn truncate_path(path: &str, max: usize) -> (r: String)
    ensures
        r@ == truncated_path(path@, max as nat),
{
    if path.as_bytes().len() <= max {
        return path.to_string();
    }
    if max <= 2 {
        return take_chars(path, max);
    }
    let filename = file_name(path);
    if filename.as_str().as_bytes().len() <= max {
        return filename;
    }
    let mut r = take_chars(filename.as_str(), max - 2);
    r.append("..");
    proof {
        reveal_strlit("..");
    }
    r
}

/// A truncated path never has more than `max` characters.
pub proof fn lemma_truncated_path_fits(path: Seq<char>, max: nat)
    ensures
        truncated_path(path, max).len() <= max,
{
    lemma_byte_len_at_least_chars(path);
    lemma_byte_len_at_least_chars(last_component(path));
}

/// A text shortened to at most `max` bytes: the whole text when it fits,
/// else its first `max - 3` bytes (zero when `max` is below three) followed
/// by `...`.
pub open spec fn truncated_text(text: Seq<char>, max: nat) -> Seq<char> {
    if byte_len(text) <= max {
        text
    } else {
        decode_utf8(encode_utf8(text).take(if max >= 3 { max - 3 } else { 0 })) + "..."@
    }
}

/// Where `truncate_text` cuts `text` when it is too long for `max` bytes.
pub open spec fn text_cut(max: nat) -> int {
    if max >= 3 {
        max - 3
    } else {
        0
    }
}

/// The byte offset where `truncate_text` cuts a text too long for `max`.
pub fn text_cut_point(max: usize) -> (k: usize)
    ensures
        k == text_cut(max as nat),
{
    max.saturating_sub(3)
}

/// Shorten `text` to at most `max` bytes, marking the cut with `...`. The cut
/// must fall between two characters.
pub fn truncate_text(text: &str, max: usize) -> (r: String)
    requires
        byte_len(text@) > max ==> vstd::utf8::is_char_boundary(
            encode_utf8(text@),
            text_cut(max as nat),
        ),
    ensures
        r@ == truncated_text(text@, max as nat),
{
    if text.as_bytes().len() <= max {
        return text.to_string();
    }
    let cut = text_cut_point(max);
    let (head, _) = text.split_at(cut);
    let mut r = head.to_string();
    r.append("...");
    proof {
        encode_utf8_decode_utf8(head@);
        assert(encode_utf8(text@).subrange(0, cut as int) =~= encode_utf8(text@).take(cut as int));
    }
    r
}

/// A text shortened to at most `max` characters: the whole text when it fits,
/// else its first `max - 3` characters (none when `max` is below three)
/// followed by `...`.
pub open spec fn truncated_chars(text: Seq<char>, max: nat) -> Seq<char> {
    if text.len() <= max {
        text
    } else {
        text.take(text_cut(max)) + "..."@
    }
}

/// Shorten `text` to at most `max` characters, marking the cut with `...`.
pub fn truncate_chars(text: &str, max: usize) -> (r: String)
    ensures
        r@ == truncated_chars(text@, max as nat),
{
    if text.unicode_len() <= max {
        return text.to_string();
    }
    let mut r = take_chars(text, text_cut_point(max));
    r.append("...");
    r
}

/// The decimal digits of `n`, most significant first.
pub open spec fn decimal(n: nat) -> Seq<char>
    decreases n,
{
    if n < 10 {
        seq![decimal_digit(n)]
    } else {
        decimal(n / 10).push(decimal_digit(n % 10))
    }
}

/// The decimal digit `d` (for `d` below ten).
pub open spec fn decimal_digit(d: nat) -> char {
    seq!['0', '1', '2', '3', '4', '5', '6', '7', '8', '9'][d as int]
}

/// `usize::to_string` (`Display` for `usize`): the decimal digits of `n`,
/// without sign or leading zeros.
#[verifier::external_body]
pub(crate) fn usize_to_string(n: usize) -> (s: String)
    ensures
        s@ == decimal(n as nat),
{
    n.to_string()
}

} // verus!
