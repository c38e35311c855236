//! Text: measuring, clipping, trimming, numerals and searching.
//!
//! Every function here speaks of a text as the sequence of its characters. Its
//! size in bytes is the length of its UTF-8 encoding.

use vstd::prelude::*;

verus! {

/// What follows the part of a text that was kept when the rest was cut off.
pub const CLIP_MARK: &'static str = "\n[output truncated]";

/// `String::push` of std appends one character to the text.
pub assume_specification[ std::string::String::push ](text: &mut std::string::String, c: char)
    ensures
        final(text)@ == old(text)@.push(c),
;

// ------------------------------------------------------------------- bytes

/// How many bytes a text takes in UTF-8.
pub open spec fn byte_len(text: Seq<char>) -> nat {
    vstd::utf8::encode_utf8(text).len()
}

/// How many bytes one character takes in UTF-8.
pub open spec fn char_width(c: char) -> nat {
    if c as u32 <= 0x7f {
        1
    } else if c as u32 <= 0x7ff {
        2
    } else if c as u32 <= 0xffff {
        3
    } else {
        4
    }
}

/// A text in two pieces is encoded as its pieces are.
pub proof fn lemma_encode_concat(a: Seq<char>, b: Seq<char>)
    ensures
        vstd::utf8::encode_utf8(a + b) == vstd::utf8::encode_utf8(a) + vstd::utf8::encode_utf8(b),
    decreases a.len(),
{
    if a.len() == 0 {
        assert(a + b == b);
        assert(vstd::utf8::encode_utf8(a + b) == vstd::utf8::encode_utf8(a)
            + vstd::utf8::encode_utf8(b));
    } else {
        assert((a + b).drop_first() == a.drop_first() + b);
        lemma_encode_concat(a.drop_first(), b);
        assert(vstd::utf8::encode_utf8(a + b) == vstd::utf8::encode_utf8(a)
            + vstd::utf8::encode_utf8(b));
    }
}

/// A text in two pieces takes as many bytes as the pieces do.
pub proof fn lemma_byte_len_concat(a: Seq<char>, b: Seq<char>)
    ensures
        byte_len(a + b) == byte_len(a) + byte_len(b),
{
    lemma_encode_concat(a, b);
}

/// One more character adds its own width.
pub proof fn lemma_byte_len_push(text: Seq<char>, c: char)
    ensures
        byte_len(text.push(c)) == byte_len(text) + char_width(c),
{
    assert(text.push(c) == text + seq![c]);
    lemma_byte_len_concat(text, seq![c]);
    reveal_with_fuel(vstd::utf8::encode_utf8, 2);
    assert(seq![c].drop_first() == Seq::<char>::empty());
}

/// A longer prefix never takes fewer bytes.
pub proof fn lemma_byte_len_prefix(text: Seq<char>, n: int, m: int)
    requires
        0 <= n <= m <= text.len(),
    ensures
        byte_len(text.take(n)) <= byte_len(text.take(m)),
{
    assert(text.take(m) == text.take(n) + text.subrange(n, m));
    lemma_byte_len_concat(text.take(n), text.subrange(n, m));
}

fn width(c: char) -> (w: usize)
    ensures
        w == char_width(c),
{
    let code: u32 = c as u32;
    if code <= 0x7f {
        1
    } else if code <= 0x7ff {
        2
    } else if code <= 0xffff {
        3
    } else {
        4
    }
}

/// The characters of a text.
pub fn chars_of(text: &str) -> (chars: Vec<char>)
    ensures
        chars@ == text@,
{
    let mut chars: Vec<char> = Vec::new();
    for c in iter: text.chars()
        invariant
            chars@ == iter.seq().take(iter.index()),
            iter.seq() == text@,
    {
        chars.push(c);
    }
    assert(text@.take(text@.len() as int) == text@);
    chars
}

/// Whether two texts are the same.
pub fn same_text(a: &str, b: &str) -> (same: bool)
    ensures
        same == (a@ == b@),
{
    a.to_owned() == b.to_owned()
}

/// What `String::from_utf8_lossy` of std makes of bytes.
pub uninterp spec fn utf8_lossy(bytes: Seq<u8>) -> Seq<char>;

/// The text that bytes stand for: valid UTF-8 as it is, anything else with its
/// invalid parts replaced.
pub open spec fn decoded(bytes: Seq<u8>) -> Seq<char> {
    if vstd::utf8::valid_utf8(bytes) {
        vstd::utf8::decode_utf8(bytes)
    } else {
        utf8_lossy(bytes)
    }
}

/// `String::from_utf8_lossy` of std: the text is the one named `utf8_lossy` of
/// the bytes. Bytes that are valid UTF-8 are decoded as they are; how the
/// invalid parts of others are replaced is left unsaid.
#[verifier::external_body]
pub(crate) fn decode_lossy(bytes: &[u8]) -> (text: String)
    ensures
        text@ == utf8_lossy(bytes@),
        vstd::utf8::valid_utf8(bytes@) ==> text@ == vstd::utf8::decode_utf8(bytes@),
{
    String::from_utf8_lossy(bytes).into_owned()
}

/// What std writes for a text with `{:?}`: in quotes, with escapes.
pub uninterp spec fn debug_text(text: Seq<char>) -> Seq<char>;

/// `format!` of std with `{:?}`: the text written is the one named `debug_text`
/// of the text given. Which characters are escaped, and how, is left unsaid.
#[verifier::external_body]
pub(crate) fn quoted(text: &str) -> (shown: String)
    ensures
        shown@ == debug_text(text@),
{
    format!("{:?}", text)
}

// -------------------------------------------------------------------- clip

/// The longest beginning of a text that takes at most `max` bytes: characters
/// are dropped from the end until the rest fits.
pub open spec fn fitting(text: Seq<char>, max: nat) -> Seq<char>
    decreases text.len(),
{
    if byte_len(text) <= max || text.len() == 0 {
        text
    } else {
        fitting(text.drop_last(), max)
    }
}

/// A text cut down to `max` bytes. A text that fits is left alone; otherwise
/// the mark tells that something is missing.
pub open spec fn clipped(text: Seq<char>, max: nat) -> Seq<char> {
    if byte_len(text) <= max {
        text
    } else {
        fitting(text, max) + CLIP_MARK@
    }
}

/// The prefix of `n` characters is the fitting one if it fits and one more
/// character would not.
proof fn lemma_fitting_is(text: Seq<char>, max: nat, n: int)
    requires
        0 <= n <= text.len(),
        byte_len(text.take(n)) <= max,
        n < text.len() ==> byte_len(text.take(n + 1)) > max,
    ensures
        fitting(text, max) == text.take(n),
    decreases text.len(),
{
    assert(text.take(text.len() as int) == text);
    if n < text.len() {
        lemma_byte_len_prefix(text, n + 1, text.len() as int);
        let shorter = text.drop_last();
        assert(shorter.take(n) == text.take(n));
        if n < shorter.len() {
            assert(shorter.take(n + 1) == text.take(n + 1));
        }
        lemma_fitting_is(shorter, max, n);
    }
}

/// What is kept is a beginning of the text, it takes at most `max` bytes, and
/// no longer beginning does.
pub proof fn fitting_is_the_longest_prefix(text: Seq<char>, max: nat)
    ensures
        fitting(text, max).is_prefix_of(text),
        byte_len(fitting(text, max)) <= max,
        forall|m: int|
            fitting(text, max).len() < m <= text.len() ==> byte_len(#[trigger] text.take(m)) > max,
    decreases text.len(),
{
    if byte_len(text) <= max || text.len() == 0 {
    } else {
        let shorter = text.drop_last();
        fitting_is_the_longest_prefix(shorter, max);
        assert forall|m: int| fitting(text, max).len() < m <= text.len() implies byte_len(
            #[trigger] text.take(m),
        ) > max by {
            if m == text.len() {
                assert(text.take(m) == text);
            } else {
                assert(text.take(m) == shorter.take(m));
            }
        }
    }
}

/// A clipped text never takes more than `max` bytes and the mark, and a text that
/// fits is left alone.
pub proof fn clipping_bounds_the_size(text: Seq<char>, max: nat)
    ensures
        byte_len(clipped(text, max)) <= max + byte_len(CLIP_MARK@),
        byte_len(text) <= max ==> clipped(text, max) == text,
        byte_len(text) > max ==> CLIP_MARK@.is_suffix_of(clipped(text, max)),
{
    fitting_is_the_longest_prefix(text, max);
    lemma_byte_len_concat(fitting(text, max), CLIP_MARK@);
    if byte_len(text) > max {
        let kept = fitting(text, max);
        assert(clipped(text, max).subrange(
            kept.len() as int,
            clipped(text, max).len() as int,
        ) == CLIP_MARK@);
    }
}

/// Cut `text` down to `max` bytes on a character boundary, marking the cut.
pub fn clip(text: &str, max: usize) -> (kept: String)
    ensures
        kept@ == clipped(text@, max as nat),
{
    if text.as_bytes().len() <= max {
        return text.to_owned();
    }
    let chars = chars_of(text);
    let mut n: usize = 0;
    let mut used: usize = 0;
    assert(text@.take(0) == Seq::<char>::empty());
    assert(text@.take(text@.len() as int) == text@);
    while n < chars.len() && width(chars[n]) <= max - used
        invariant
            chars@ == text@,
            n <= chars.len(),
            used <= max,
            used == byte_len(text@.take(n as int)),
        decreases chars.len() - n,
    {
        proof {
            lemma_byte_len_push(text@.take(n as int), text@[n as int]);
            assert(text@.take(n as int).push(text@[n as int]) == text@.take(n + 1));
        }
        used = used + width(chars[n]);
        n = n + 1;
    }
    proof {
        if n < text@.len() {
            lemma_byte_len_push(text@.take(n as int), text@[n as int]);
            assert(text@.take(n as int).push(text@[n as int]) == text@.take(n + 1));
        }
        lemma_fitting_is(text@, max as nat, n as int);
    }
    let mut kept = text.substring_char(0, n).to_owned();
    assert(text@.subrange(0, n as int) == text@.take(n as int));
    kept.append(CLIP_MARK);
    kept
}

// -------------------------------------------------------------- whitespace

/// The characters with the Unicode property `White_Space`.
pub open spec fn is_white(c: char) -> bool {
    let code = c as u32;
    ||| 0x9 <= code <= 0xd
    ||| code == 0x20
    ||| code == 0x85
    ||| code == 0xa0
    ||| code == 0x1680
    ||| 0x2000 <= code <= 0x200a
    ||| code == 0x2028
    ||| code == 0x2029
    ||| code == 0x202f
    ||| code == 0x205f
    ||| code == 0x3000
}

/// Nothing but whitespace, or nothing at all.
pub open spec fn blank(text: Seq<char>) -> bool {
    forall|i: int| 0 <= i < text.len() ==> is_white(#[trigger] text[i])
}

/// A text without the whitespace at its beginning.
pub open spec fn trimmed_start(text: Seq<char>) -> Seq<char>
    decreases text.len(),
{
    if text.len() > 0 && is_white(text[0]) {
        trimmed_start(text.drop_first())
    } else {
        text
    }
}

/// A text without the whitespace at its end.
pub open spec fn trimmed_end(text: Seq<char>) -> Seq<char>
    decreases text.len(),
{
    if text.len() > 0 && is_white(text.last()) {
        trimmed_end(text.drop_last())
    } else {
        text
    }
}

/// A text without the whitespace at both ends.
pub open spec fn trimmed(text: Seq<char>) -> Seq<char> {
    trimmed_end(trimmed_start(text))
}

/// Whether a character is whitespace.
pub fn is_white_space(c: char) -> (white: bool)
    ensures
        white == is_white(c),
{
    let code: u32 = c as u32;
    (0x9 <= code && code <= 0xd) || code == 0x20 || code == 0x85 || code == 0xa0 || code == 0x1680
        || (0x2000 <= code && code <= 0x200a) || code == 0x2028 || code == 0x2029 || code == 0x202f
        || code == 0x205f || code == 0x3000
}

/// Whether a text holds nothing but whitespace.
pub fn is_blank(text: &str) -> (all_white: bool)
    ensures
        all_white == blank(text@),
{
    let chars = chars_of(text);
    let mut i: usize = 0;
    while i < chars.len()
        invariant
            i <= chars.len(),
            chars@ == text@,
            forall|j: int| 0 <= j < i ==> is_white(#[trigger] text@[j]),
        decreases chars.len() - i,
    {
        if !is_white_space(chars[i]) {
            assert(!is_white(text@[i as int]));
            return false;
        }
        i = i + 1;
    }
    true
}

/// `text` without the whitespace at its end.
pub fn trim_end(text: &str) -> (rest: String)
    ensures
        rest@ == trimmed_end(text@),
{
    let chars = chars_of(text);
    let mut end: usize = chars.len();
    assert(text@.take(end as int) == text@);
    while end > 0 && is_white_space(chars[end - 1])
        invariant
            end <= chars.len(),
            chars@ == text@,
            trimmed_end(text@.take(end as int)) == trimmed_end(text@),
        decreases end,
    {
        assert(text@.take(end as int).drop_last() == text@.take(end - 1));
        end = end - 1;
    }
    assert(text@.subrange(0, end as int) == text@.take(end as int));
    text.substring_char(0, end).to_owned()
}

/// `text` without the whitespace at both ends.
pub fn trim(text: &str) -> (rest: String)
    ensures
        rest@ == trimmed(text@),
{
    let chars = chars_of(text);
    let mut start: usize = 0;
    assert(text@.skip(0) == text@);
    while start < chars.len() && is_white_space(chars[start])
        invariant
            start <= chars.len(),
            chars@ == text@,
            trimmed_start(text@.skip(start as int)) == trimmed_start(text@),
        decreases chars.len() - start,
    {
        assert(text@.skip(start as int).drop_first() == text@.skip(start + 1));
        start = start + 1;
    }
    assert(text@.subrange(start as int, text@.len() as int) == text@.skip(start as int));
    trim_end(text.substring_char(start, chars.len()))
}

/// A text without the characters `c` at its end.
pub open spec fn without_trailing(text: Seq<char>, c: char) -> Seq<char>
    decreases text.len(),
{
    if text.len() > 0 && text.last() == c {
        without_trailing(text.drop_last(), c)
    } else {
        text
    }
}

/// `text` without the characters `c` at its end.
pub fn trim_trailing(text: &str, c: char) -> (rest: String)
    ensures
        rest@ == without_trailing(text@, c),
{
    let chars = chars_of(text);
    let mut end: usize = chars.len();
    assert(text@.take(end as int) == text@);
    while end > 0 && chars[end - 1] == c
        invariant
            end <= chars.len(),
            chars@ == text@,
            without_trailing(text@.take(end as int), c) == without_trailing(text@, c),
        decreases end,
    {
        assert(text@.take(end as int).drop_last() == text@.take(end - 1));
        end = end - 1;
    }
    assert(text@.subrange(0, end as int) == text@.take(end as int));
    text.substring_char(0, end).to_owned()
}

/// The pieces of a text that `end` ends, without it.
pub open spec fn ended_pieces<A>(text: Seq<A>, end: A) -> Seq<Seq<A>>
    decreases text.len(),
{
    if text.len() == 0 {
        Seq::empty()
    } else if text.last() == end {
        ended_pieces(text.drop_last(), end).push(last_piece(text.drop_last(), end))
    } else {
        ended_pieces(text.drop_last(), end)
    }
}

/// What follows the last `end`.
pub open spec fn last_piece<A>(text: Seq<A>, end: A) -> Seq<A>
    decreases text.len(),
{
    if text.len() == 0 || text.last() == end {
        Seq::empty()
    } else {
        last_piece(text.drop_last(), end).push(text.last())
    }
}

/// A text cut apart at every `separator`.
pub open spec fn pieces<A>(text: Seq<A>, separator: A) -> Seq<Seq<A>> {
    ended_pieces(text, separator).push(last_piece(text, separator))
}

/// Cut `text` apart at every `separator`.
pub fn split(text: &str, separator: char) -> (parts: Vec<String>)
    ensures
        crate::texts_view(parts@) == pieces(text@, separator),
{
    let chars = chars_of(text);
    let mut parts: Vec<String> = Vec::new();
    let mut part = String::new();
    let mut i: usize = 0;
    assert(crate::texts_view(parts@) == ended_pieces(text@.take(0), separator));
    while i < chars.len()
        invariant
            i <= chars.len(),
            chars@ == text@,
            part@ == last_piece(text@.take(i as int), separator),
            crate::texts_view(parts@) == ended_pieces(text@.take(i as int), separator),
        decreases chars.len() - i,
    {
        let ghost so_far = crate::texts_view(parts@);
        let ghost here = part@;
        assert(text@.take(i + 1).drop_last() == text@.take(i as int));
        if chars[i] == separator {
            parts.push(part);
            assert(crate::texts_view(parts@) == so_far.push(here));
            part = String::new();
        } else {
            part.push(chars[i]);
        }
        i = i + 1;
    }
    assert(text@.take(text@.len() as int) == text@);
    let ghost so_far = crate::texts_view(parts@);
    let ghost here = part@;
    parts.push(part);
    assert(crate::texts_view(parts@) == so_far.push(here));
    parts
}

/// A text in two parts has the pieces of the first, the open one going on in
/// the second.
pub proof fn lemma_pieces_concat<A>(a: Seq<A>, b: Seq<A>, end: A)
    ensures
        ended_pieces(a + b, end) == ended_pieces(a, end) + ended_pieces(last_piece(a, end) + b, end),
        last_piece(a + b, end) == last_piece(last_piece(a, end) + b, end),
    decreases b.len(),
{
    if b.len() == 0 {
        assert(a + b == a);
        assert(last_piece(a, end) + b == last_piece(a, end));
        lemma_last_piece_is_open(a, end);
    } else {
        lemma_pieces_concat(a, b.drop_last(), end);
        assert((a + b).drop_last() == a + b.drop_last());
        assert((last_piece(a, end) + b).drop_last() == last_piece(a, end) + b.drop_last());
        assert(ended_pieces(a + b, end) == ended_pieces(a, end) + ended_pieces(
            last_piece(a, end) + b,
            end,
        ));
    }
}

proof fn lemma_last_piece_is_open<A>(text: Seq<A>, end: A)
    ensures
        ended_pieces(last_piece(text, end), end) == Seq::<Seq<A>>::empty(),
        last_piece(last_piece(text, end), end) == last_piece(text, end),
    decreases text.len(),
{
    if text.len() > 0 && text.last() != end {
        lemma_last_piece_is_open(text.drop_last(), end);
        assert(last_piece(text, end).drop_last() == last_piece(text.drop_last(), end));
    }
}

/// What holds no `end` goes on with the open piece and ends none.
pub proof fn lemma_pieces_of_part<A>(text: Seq<A>, part: Seq<A>, end: A)
    requires
        !part.contains(end),
    ensures
        ended_pieces(text + part, end) == ended_pieces(text, end),
        last_piece(text + part, end) == last_piece(text, end) + part,
    decreases part.len(),
{
    if part.len() == 0 {
        assert(text + part == text);
        assert(last_piece(text, end) + part == last_piece(text, end));
    } else {
        let less = part.drop_last();
        assert(!less.contains(end)) by {
            if less.contains(end) {
                let i = choose|i: int| 0 <= i < less.len() && less[i] == end;
                assert(part[i] == end);
            }
        }
        lemma_pieces_of_part(text, less, end);
        assert((text + part).drop_last() == text + less);
        assert(part.contains(part.last()));
        assert(last_piece(text + part, end) == last_piece(text, end) + part);
    }
}

/// Pieces hold no `end`.
pub proof fn lemma_pieces_hold_no_end<A>(text: Seq<A>, end: A)
    ensures
        !last_piece(text, end).contains(end),
        forall|i: int|
            0 <= i < ended_pieces(text, end).len() ==> !(#[trigger] ended_pieces(
                text,
                end,
            )[i]).contains(end),
    decreases text.len(),
{
    if text.len() > 0 {
        let before = text.drop_last();
        lemma_pieces_hold_no_end(before, end);
        if text.last() != end {
            let open = last_piece(before, end);
            assert(!open.push(text.last()).contains(end)) by {
                if open.push(text.last()).contains(end) {
                    let i = choose|i: int|
                        0 <= i < open.push(text.last()).len() && open.push(text.last())[i] == end;
                    assert(i < open.len());
                    assert(open[i] == end);
                }
            }
        }
        assert forall|i: int| 0 <= i < ended_pieces(text, end).len() implies !(
        #[trigger] ended_pieces(text, end)[i]).contains(end) by {
            if i < ended_pieces(before, end).len() {
                assert(!ended_pieces(before, end)[i].contains(end));
            }
        }
    }
}

/// Texts one after the other, with a separator between them.
pub open spec fn joined(texts: Seq<Seq<char>>, separator: Seq<char>) -> Seq<char>
    decreases texts.len(),
{
    if texts.len() == 0 {
        Seq::empty()
    } else if texts.len() == 1 {
        texts[0]
    } else {
        joined(texts.drop_last(), separator) + separator + texts.last()
    }
}

/// Join texts with a separator between them.
pub fn join(texts: &Vec<String>, separator: &str) -> (text: String)
    ensures
        text@ == joined(crate::texts_view(texts@), separator@),
{
    let mut text = String::new();
    let mut i: usize = 0;
    let ghost views = crate::texts_view(texts@);
    while i < texts.len()
        invariant
            i <= texts.len(),
            views == crate::texts_view(texts@),
            text@ == joined(views.take(i as int), separator@),
        decreases texts.len() - i,
    {
        if i > 0 {
            text.append(separator);
        }
        text.append(texts[i].as_str());
        i = i + 1;
        assert(views.take(i as int).drop_last() == views.take(i - 1));
    }
    assert(views.take(views.len() as int) == views);
    text
}

// ---------------------------------------------------------------- numerals

/// The character of one decimal digit.
pub open spec fn digit(d: nat) -> char {
    (0x30 + d) as char
}

/// A number in decimal, without leading zeros.
pub open spec fn decimal(n: nat) -> Seq<char>
    decreases n,
{
    if n < 10 {
        seq![digit(n)]
    } else {
        decimal(n / 10).push(digit(n % 10))
    }
}

/// A number in decimal, with a minus sign where it is negative.
pub open spec fn signed_decimal(n: int) -> Seq<char> {
    if n < 0 {
        seq!['-'] + decimal((-n) as nat)
    } else {
        decimal(n as nat)
    }
}

/// Append a number in decimal.
pub fn push_decimal(text: &mut String, n: u64)
    ensures
        final(text)@ == old(text)@ + decimal(n as nat),
    decreases n,
{
    if n >= 10 {
        push_decimal(text, n / 10);
    }
    let d: u8 = 0x30 + (n % 10) as u8;
    text.push(d as char);
    assert(text@ == old(text)@ + decimal(n as nat));
}

/// Append a signed number in decimal.
pub fn push_signed(text: &mut String, n: i32)
    ensures
        final(text)@ == old(text)@ + signed_decimal(n as int),
{
    if n < 0 {
        text.push('-');
        let magnitude: i64 = -(n as i64);
        push_decimal(text, magnitude as u64);
        assert(text@ == old(text)@ + signed_decimal(n as int));
    } else {
        push_decimal(text, n as u64);
    }
}

// --------------------------------------------------------------- searching

/// `part` stands in `text` from position `at` on.
pub open spec fn occurs_at(text: Seq<char>, part: Seq<char>, at: int) -> bool {
    &&& 0 <= at
    &&& at + part.len() <= text.len()
    &&& text.subrange(at, at + part.len()) == part
}

/// `part` stands somewhere in `text`.
pub open spec fn contains_text(text: Seq<char>, part: Seq<char>) -> bool {
    exists|at: int| occurs_at(text, part, at)
}

/// The leftmost place, from position `from` on, where `part` stands.
pub open spec fn leftmost(text: Seq<char>, part: Seq<char>, from: int) -> Option<int>
    decreases text.len() + 1 - from,
{
    if from < 0 || from + part.len() > text.len() {
        None
    } else if occurs_at(text, part, from) {
        Some(from)
    } else {
        leftmost(text, part, from + 1)
    }
}

/// How often `part` stands in `text` from position `from` on, counted from left
/// to right, each place behind the end of the one before.
pub open spec fn count_from(text: Seq<char>, part: Seq<char>, from: int) -> nat
    recommends
        part.len() > 0,
    decreases text.len() - from,
{
    if from < 0 || part.len() == 0 || from + part.len() > text.len() {
        0
    } else if occurs_at(text, part, from) {
        1 + count_from(text, part, from + part.len())
    } else {
        count_from(text, part, from + 1)
    }
}

/// Counting goes on behind the leftmost place.
pub proof fn lemma_count_from(text: Seq<char>, part: Seq<char>, from: int)
    requires
        0 <= from,
        part.len() > 0,
    ensures
        match leftmost(text, part, from) {
            Some(at) => count_from(text, part, from) == 1 + count_from(text, part, at + part.len()),
            None => count_from(text, part, from) == 0,
        },
    decreases text.len() + 1 - from,
{
    if from + part.len() <= text.len() && !occurs_at(text, part, from) {
        lemma_count_from(text, part, from + 1);
    }
}

/// In how many places, from position `from` on, `part` stands in `text`. Places
/// may overlap.
pub open spec fn places_from(text: Seq<char>, part: Seq<char>, from: int) -> nat
    decreases text.len() + 1 - from,
{
    if from < 0 || from + part.len() > text.len() {
        0
    } else if occurs_at(text, part, from) {
        1 + places_from(text, part, from + 1)
    } else {
        places_from(text, part, from + 1)
    }
}

/// In how many places `part` stands in `text`.
pub open spec fn places(text: Seq<char>, part: Seq<char>) -> nat {
    places_from(text, part, 0)
}

/// `part` stands in `text` at `at` and nowhere else.
pub open spec fn only_at(text: Seq<char>, part: Seq<char>, at: int) -> bool {
    &&& occurs_at(text, part, at)
    &&& forall|k: int| occurs_at(text, part, k) ==> k == at
}

/// What counting places tells: there is none, or exactly one, the leftmost, or
/// the leftmost and another one.
pub proof fn lemma_places_from(text: Seq<char>, part: Seq<char>, from: int)
    requires
        0 <= from,
    ensures
        places_from(text, part, from) == 0 <==> leftmost(text, part, from) is None,
        leftmost(text, part, from) matches Some(at) ==> places_from(text, part, from) == 1
            + places_from(text, part, at + 1),
    decreases text.len() + 1 - from,
{
    if from + part.len() <= text.len() && !occurs_at(text, part, from) {
        lemma_places_from(text, part, from + 1);
    }
}

/// Counting without overlap never counts more places than there are, and counts
/// some where there are some.
pub proof fn lemma_counts_agree(text: Seq<char>, part: Seq<char>, from: int)
    requires
        0 <= from,
        part.len() > 0,
    ensures
        count_from(text, part, from) <= places_from(text, part, from),
        count_from(text, part, from) == 0 <==> places_from(text, part, from) == 0,
    decreases text.len() + 1 - from,
{
    if from + part.len() <= text.len() {
        if occurs_at(text, part, from) {
            lemma_counts_agree(text, part, from + part.len());
            lemma_places_shrink(text, part, from + 1, from + part.len());
        } else {
            lemma_counts_agree(text, part, from + 1);
        }
    }
}

proof fn lemma_places_shrink(text: Seq<char>, part: Seq<char>, from: int, to: int)
    requires
        0 <= from <= to,
    ensures
        places_from(text, part, to) <= places_from(text, part, from),
    decreases to - from,
{
    if from < to {
        lemma_places_shrink(text, part, from + 1, to);
        if from + part.len() > text.len() {
            assert(places_from(text, part, to) == 0);
        }
    }
}

/// A part stands in one place only exactly when one place is counted, and stands
/// nowhere exactly when none is.
pub proof fn places_are_counted(text: Seq<char>, part: Seq<char>)
    ensures
        places(text, part) == 0 <==> !contains_text(text, part),
        places(text, part) == 1 <==> exists|at: int| only_at(text, part, at),
        places(text, part) == 1 ==> leftmost(text, part, 0) is Some && only_at(
            text,
            part,
            leftmost(text, part, 0)->0,
        ),
{
    lemma_leftmost(text, part, 0);
    lemma_places_from(text, part, 0);
    match leftmost(text, part, 0) {
        Some(at) => {
            lemma_leftmost(text, part, at + 1);
            lemma_places_from(text, part, at + 1);
            match leftmost(text, part, at + 1) {
                Some(next) => {
                    assert forall|k: int| !only_at(text, part, k) by {
                        if only_at(text, part, k) {
                            assert(at == k);
                            assert(next == k);
                        }
                    }
                },
                None => {
                    assert(only_at(text, part, at));
                },
            }
        },
        None => {},
    }
}

/// What a leftmost place is: `part` stands there, and nowhere before it.
pub proof fn lemma_leftmost(text: Seq<char>, part: Seq<char>, from: int)
    requires
        0 <= from,
    ensures
        match leftmost(text, part, from) {
            Some(at) => {
                &&& from <= at
                &&& occurs_at(text, part, at)
                &&& forall|k: int| from <= k < at ==> !occurs_at(text, part, k)
            },
            None => forall|k: int| from <= k ==> !occurs_at(text, part, k),
        },
    decreases text.len() + 1 - from,
{
    if from + part.len() <= text.len() && !occurs_at(text, part, from) {
        lemma_leftmost(text, part, from + 1);
    }
}

/// Whether `part` stands in `text` at position `at`.
fn stands_at(text: &Vec<char>, part: &Vec<char>, at: usize) -> (there: bool)
    requires
        at + part.len() <= text.len(),
    ensures
        there == occurs_at(text@, part@, at as int),
{
    let mut i: usize = 0;
    while i < part.len()
        invariant
            i <= part.len(),
            at + part.len() <= text.len(),
            forall|j: int| 0 <= j < i ==> text@[at + j] == part@[j],
        decreases part.len() - i,
    {
        if text[at + i] != part[i] {
            assert(text@.subrange(at as int, at + part@.len())[i as int] != part@[i as int]);
            return false;
        }
        i = i + 1;
    }
    assert(text@.subrange(at as int, at + part@.len()) == part@);
    true
}

/// The leftmost place of `part` in `text` from position `from` on.
pub fn find_from(text: &Vec<char>, part: &Vec<char>, from: usize) -> (place: Option<usize>)
    requires
        from <= text.len(),
    ensures
        match place {
            Some(at) => leftmost(text@, part@, from as int) == Some(at as int),
            None => leftmost(text@, part@, from as int) is None,
        },
{
    let mut at: usize = from;
    while part.len() <= text.len() - at
        invariant
            from <= at <= text.len(),
            leftmost(text@, part@, at as int) == leftmost(text@, part@, from as int),
        decreases text.len() - at,
    {
        if stands_at(text, part, at) {
            return Some(at);
        }
        assert(part@.len() > 0) by {
            if part@.len() == 0 {
                assert(text@.subrange(at as int, at + part@.len()) == part@);
            }
        }
        at = at + 1;
    }
    None
}

/// How often `part` stands in `text`, counted from left to right without
/// overlap.
pub fn count_matches(text: &Vec<char>, part: &Vec<char>) -> (count: usize)
    requires
        part.len() > 0,
    ensures
        count == count_from(text@, part@, 0),
{
    let mut count: usize = 0;
    let mut from: usize = 0;
    loop
        invariant
            part.len() > 0,
            count <= from <= text.len(),
            count + count_from(text@, part@, from as int) == count_from(text@, part@, 0),
        ensures
            count == count_from(text@, part@, 0),
        decreases text.len() - from,
    {
        proof {
            lemma_leftmost(text@, part@, from as int);
            lemma_count_from(text@, part@, from as int);
        }
        match find_from(text, part, from) {
            Some(at) => {
                count = count + 1;
                from = at + part.len();
            },
            None => {
                break;
            },
        }
    }
    count
}

/// In how many places `part` stands in `text`. Places may overlap.
pub fn count_places(text: &Vec<char>, part: &Vec<char>) -> (count: usize)
    requires
        part.len() > 0,
    ensures
        count == places(text@, part@),
{
    let mut count: usize = 0;
    let mut at: usize = 0;
    while part.len() <= text.len() - at
        invariant
            part.len() > 0,
            count <= at <= text.len(),
            count + places_from(text@, part@, at as int) == places(text@, part@),
        decreases text.len() - at,
    {
        if stands_at(text, part, at) {
            count = count + 1;
        }
        at = at + 1;
    }
    count
}

/// Whether `part` stands somewhere in `text`.
pub fn contains(text: &str, part: &str) -> (there: bool)
    ensures
        there == contains_text(text@, part@),
{
    proof {
        lemma_leftmost(text@, part@, 0);
    }
    find_from(&chars_of(text), &chars_of(part), 0).is_some()
}

/// Whether `text` begins with `part`.
pub fn starts_with(text: &str, part: &str) -> (there: bool)
    ensures
        there == part@.is_prefix_of(text@),
{
    let chars = chars_of(text);
    let wanted = chars_of(part);
    if wanted.len() > chars.len() {
        return false;
    }
    let there = stands_at(&chars, &wanted, 0);
    assert(text@.subrange(0, part@.len() as int) == text@.take(part@.len() as int));
    there
}

// --------------------------------------------------------------------- laws

/// Only characters `c` at the end are taken away, and all of them are.
pub proof fn only_the_end_goes(text: Seq<char>, c: char)
    ensures
        ({
            let kept = without_trailing(text, c);
            &&& kept.len() <= text.len()
            &&& kept == text.take(kept.len() as int)
            &&& forall|i: int| kept.len() <= i < text.len() ==> (#[trigger] text[i]) == c
            &&& kept.len() > 0 ==> kept.last() != c
        }),
    decreases text.len(),
{
    let kept = without_trailing(text, c);
    if text.len() > 0 && text.last() == c {
        only_the_end_goes(text.drop_last(), c);
        assert(kept == text.take(kept.len() as int));
        assert forall|i: int| kept.len() <= i < text.len() implies (#[trigger] text[i]) == c by {
            if i < text.len() - 1 {
                assert(text.drop_last()[i] == c);
            }
        }
    } else {
        assert(kept == text.take(kept.len() as int));
    }
}

/// A text is what trimming leaves of it, with whitespace at the end.
pub proof fn only_whitespace_goes_from_the_end(text: Seq<char>)
    ensures
        ({
            let kept = trimmed_end(text);
            &&& kept.len() <= text.len()
            &&& kept == text.take(kept.len() as int)
            &&& blank(text.skip(kept.len() as int))
            &&& kept.len() > 0 ==> !is_white(kept.last())
        }),
    decreases text.len(),
{
    let kept = trimmed_end(text);
    if text.len() > 0 && is_white(text.last()) {
        let less = text.drop_last();
        only_whitespace_goes_from_the_end(less);
        assert(kept == text.take(kept.len() as int));
        let cut = text.skip(kept.len() as int);
        assert forall|i: int| 0 <= i < cut.len() implies is_white(#[trigger] cut[i]) by {
            if i < cut.len() - 1 {
                assert(cut[i] == less.skip(kept.len() as int)[i]);
            }
        }
    } else {
        assert(kept == text.take(kept.len() as int));
    }
}

/// The same at the beginning.
pub proof fn only_whitespace_goes_from_the_beginning(text: Seq<char>)
    ensures
        ({
            let kept = trimmed_start(text);
            &&& kept.len() <= text.len()
            &&& kept == text.skip(text.len() - kept.len())
            &&& blank(text.take(text.len() - kept.len()))
            &&& kept.len() > 0 ==> !is_white(kept[0])
        }),
    decreases text.len(),
{
    let kept = trimmed_start(text);
    if text.len() > 0 && is_white(text[0]) {
        let less = text.drop_first();
        only_whitespace_goes_from_the_beginning(less);
        assert(kept == text.skip(text.len() - kept.len()));
        let cut = text.take(text.len() - kept.len());
        assert forall|i: int| 0 <= i < cut.len() implies is_white(#[trigger] cut[i]) by {
            if i > 0 {
                assert(cut[i] == less.take(less.len() - kept.len())[i - 1]);
            }
        }
    } else {
        assert(kept == text.skip(0));
    }
}

/// A text is what trimming leaves of it with whitespace around it, and what is left
/// neither begins nor ends with whitespace.
pub proof fn only_whitespace_goes(text: Seq<char>)
    ensures
        ({
            let kept = trimmed(text);
            &&& exists|before: Seq<char>, behind: Seq<char>| #[trigger]
                blank(before) && #[trigger] blank(behind) && text == before + kept + behind
            &&& kept.len() > 0 ==> !is_white(kept[0]) && !is_white(kept.last())
        }),
{
    let middle = trimmed_start(text);
    let kept = trimmed(text);
    only_whitespace_goes_from_the_beginning(text);
    only_whitespace_goes_from_the_end(middle);
    let before = text.take(text.len() - middle.len());
    let behind = middle.skip(kept.len() as int);
    assert(blank(before) && blank(behind));
    assert(text == before + kept + behind);
    if kept.len() > 0 {
        assert(kept[0] == middle[0]);
    }
}

/// What has no whitespace at its ends is what trimming leaves of it, whatever
/// whitespace is put around it.
pub proof fn whitespace_around_a_text_goes(before: Seq<char>, text: Seq<char>, behind: Seq<char>)
    requires
        blank(before),
        blank(behind),
        text.len() > 0,
        !is_white(text[0]),
        !is_white(text.last()),
    ensures
        trimmed(before + text + behind) == text,
{
    let whole = before + text + behind;
    lemma_trimmed_start_is(whole, before.len() as int);
    let rest = whole.skip(before.len() as int);
    assert(rest == text + behind);
    lemma_trimmed_end_is(rest, text.len() as int);
    assert(rest.take(text.len() as int) == text);
}

proof fn lemma_trimmed_start_is(text: Seq<char>, from: int)
    requires
        0 <= from < text.len(),
        forall|i: int| 0 <= i < from ==> is_white(#[trigger] text[i]),
        !is_white(text[from]),
    ensures
        trimmed_start(text) == text.skip(from),
    decreases from,
{
    if from > 0 {
        let less = text.drop_first();
        assert(is_white(text[0]));
        assert forall|i: int| 0 <= i < from - 1 implies is_white(#[trigger] less[i]) by {
            assert(is_white(text[i + 1]));
        }
        lemma_trimmed_start_is(less, from - 1);
        assert(less.skip(from - 1) == text.skip(from));
    } else {
        assert(text.skip(0) == text);
    }
}

proof fn lemma_trimmed_end_is(text: Seq<char>, to: int)
    requires
        0 < to <= text.len(),
        forall|i: int| to <= i < text.len() ==> is_white(#[trigger] text[i]),
        !is_white(text[to - 1]),
    ensures
        trimmed_end(text) == text.take(to),
    decreases text.len(),
{
    if to < text.len() {
        let less = text.drop_last();
        assert(is_white(text[text.len() - 1]));
        lemma_trimmed_end_is(less, to);
        assert(less.take(to) == text.take(to));
    } else {
        assert(text.take(to) == text);
    }
}

/// A text that is cut keeps as much of its beginning as takes `max` bytes at most,
/// and says that it was cut; a text that fits is kept as it is.
pub proof fn what_is_clipped_keeps_its_beginning(text: Seq<char>, max: nat)
    ensures
        vstd::utf8::encode_utf8(text).len() <= max ==> clipped(text, max) == text,
        vstd::utf8::encode_utf8(text).len() > max ==> exists|n: int|
            0 <= n < text.len() && clipped(text, max) == #[trigger] text.take(n)
                + "\n[output truncated]"@ && vstd::utf8::encode_utf8(text.take(n)).len() <= max
                && vstd::utf8::encode_utf8(text.take(n + 1)).len() > max,
{
    if byte_len(text) > max {
        fitting_is_the_longest_prefix(text, max);
        let n = fitting(text, max).len() as int;
        assert(fitting(text, max) == text.take(n));
        assert(text.take(text.len() as int) == text);
        assert(n < text.len());
        assert(byte_len(text.take(n + 1)) > max);
        assert(clipped(text, max) == text.take(n) + "\n[output truncated]"@);
    }
}

/// The number that decimal digits stand for.
pub open spec fn number_of(digits: Seq<char>) -> int
    decreases digits.len(),
{
    if digits.len() == 0 {
        0
    } else {
        number_of(digits.drop_last()) * 10 + (digits.last() as int - '0' as int)
    }
}

/// A numeral stands for its number, is made of decimal digits, and does not begin
/// with a zero unless it is zero.
pub proof fn a_numeral_stands_for_its_number(n: nat)
    ensures
        number_of(decimal(n)) == n,
        decimal(n).len() > 0,
        forall|i: int| 0 <= i < decimal(n).len() ==> '0' <= (#[trigger] decimal(n)[i]) <= '9',
        n > 0 ==> decimal(n)[0] != '0',
    decreases n,
{
    reveal_with_fuel(number_of, 2);
    if n < 10 {
        assert(seq![digit(n)].drop_last() == Seq::<char>::empty());
    } else {
        a_numeral_stands_for_its_number(n / 10);
        assert(decimal(n).drop_last() == decimal(n / 10));
    }
}

/// A negative number has a minus sign before its numeral.
pub proof fn a_minus_sign_stands_before_a_negative_number(n: int)
    ensures
        n >= 0 ==> number_of(signed_decimal(n)) == n && signed_decimal(n)[0] != '-',
        n < 0 ==> signed_decimal(n)[0] == '-' && number_of(signed_decimal(n).skip(1)) == -n,
{
    if n >= 0 {
        a_numeral_stands_for_its_number(n as nat);
        assert('0' <= decimal(n as nat)[0]);
    } else {
        a_numeral_stands_for_its_number((-n) as nat);
        assert(signed_decimal(n).skip(1) == decimal((-n) as nat));
    }
}

/// Joined texts are the first one, and each further one behind a separator.
pub proof fn joined_texts_stand_one_behind_the_other(
    texts: Seq<Seq<char>>,
    text: Seq<char>,
    separator: Seq<char>,
)
    ensures
        joined(seq![text], separator) == text,
        joined(Seq::empty(), separator) == Seq::<char>::empty(),
        texts.len() > 0 ==> joined(texts.push(text), separator) == joined(texts, separator)
            + separator + text,
{
    assert(texts.push(text).drop_last() == texts);
}

/// Pieces are what stands between the separators: put together again with
/// separators between them they are the text, and none of them holds one.
pub proof fn pieces_stand_between_separators(text: Seq<char>, separator: char)
    ensures
        pieces(text, separator).len() > 0,
        joined(pieces(text, separator), seq![separator]) == text,
        forall|i: int|
            0 <= i < pieces(text, separator).len() ==> !(#[trigger] pieces(
                text,
                separator,
            )[i]).contains(separator),
    decreases text.len(),
{
    let parts = pieces(text, separator);
    lemma_pieces_hold_no_end(text, separator);
    assert forall|i: int| 0 <= i < parts.len() implies !(#[trigger] parts[i]).contains(
        separator,
    ) by {
        if i < parts.len() - 1 {
            assert(parts[i] == ended_pieces(text, separator)[i]);
        }
    }
    assert(parts.drop_last() == ended_pieces(text, separator));
    if text.len() == 0 {
        assert(parts == seq![Seq::<char>::empty()]);
    } else {
        let before = text.drop_last();
        let shorter = pieces(before, separator);
        pieces_stand_between_separators(before, separator);
        assert(shorter.drop_last() == ended_pieces(before, separator));
        if text.last() == separator {
            assert(parts.drop_last() == shorter);
            assert(before + seq![separator] + parts.last() == text);
        } else {
            assert(parts.last() == shorter.last().push(text.last()));
            assert(parts.drop_last() == shorter.drop_last());
            assert(before.push(text.last()) == text);
            if parts.len() > 1 {
                let front = joined(shorter.drop_last(), seq![separator]) + seq![separator];
                assert(front + shorter.last().push(text.last()) == (front + shorter.last()).push(
                    text.last(),
                ));
            }
        }
    }
}

/// Blanks, tabs and ends of lines are whitespace; what leaves a mark on paper is
/// not.
pub proof fn what_can_be_seen_is_no_whitespace(c: char)
    ensures
        c == ' ' || c == '\t' || c == '\n' || c == '\r' ==> is_white(c),
        '!' <= c <= '~' ==> !is_white(c),
        c > '\u{3000}' ==> !is_white(c),
{
}

/// Whitespace is exactly this: the blank, the controls from tab to carriage return,
/// the next line, and the spaces and separators of Unicode.
pub proof fn whitespace_is_exactly_this(c: char)
    ensures
        is_white(c) <==> set![
            0x9u32, 0xa, 0xb, 0xc, 0xd, 0x20, 0x85, 0xa0, 0x1680, 0x2000, 0x2001, 0x2002, 0x2003,
            0x2004, 0x2005, 0x2006, 0x2007, 0x2008, 0x2009, 0x200a, 0x2028, 0x2029, 0x202f, 0x205f,
            0x3000,
        ].contains(c as u32),
{
}

/// A text is blank exactly when each of its characters is whitespace: one that is
/// not, anywhere, makes it say something.
pub proof fn one_visible_character_is_not_blank(before: Seq<char>, c: char, behind: Seq<char>)
    ensures
        blank(Seq::empty()),
        blank(before + seq![c] + behind) <==> blank(before) && is_white(c) && blank(behind),
{
    let text = before + seq![c] + behind;
    assert(text[before.len() as int] == c);
    if blank(text) {
        assert forall|i: int| 0 <= i < before.len() implies is_white(#[trigger] before[i]) by {
            assert(text[i] == before[i]);
        }
        assert forall|i: int| 0 <= i < behind.len() implies is_white(#[trigger] behind[i]) by {
            assert(text[before.len() + 1 + i] == behind[i]);
        }
    }
    if blank(before) && is_white(c) && blank(behind) {
        assert forall|i: int| 0 <= i < text.len() implies is_white(#[trigger] text[i]) by {
            if i < before.len() {
                assert(text[i] == before[i]);
            } else if i > before.len() {
                assert(text[i] == behind[i - before.len() - 1]);
            }
        }
    }
}

/// The size of a text is that of its UTF-8 encoding.
pub proof fn the_size_of_a_text_is_that_of_its_encoding(text: Seq<char>)
    ensures
        byte_len(text) == vstd::utf8::encode_utf8(text).len(),
{
}

/// Bytes that encode a text stand for that text.
pub proof fn an_encoded_text_is_decoded(text: Seq<char>)
    ensures
        decoded(vstd::utf8::encode_utf8(text)) == text,
{
    vstd::utf8::encode_utf8_valid_utf8(text);
    vstd::utf8::encode_utf8_decode_utf8(text);
}

/// Copies of a snippet, one behind the other, are counted one by one, whatever
/// follows that does not hold the snippet.
pub proof fn copies_are_counted_one_by_one(part: Seq<char>, rest: Seq<char>)
    requires
        part.len() > 0,
    ensures
        count_from(part + rest, part, 0) == 1 + count_from(rest, part, 0),
        !contains_text(rest, part) ==> count_from(rest, part, 0) == 0,
{
    let text = part + rest;
    assert(text.subrange(0, part.len() as int) == part);
    assert(occurs_at(text, part, 0));
    lemma_count_shifted(part, rest, part, 0);
    lemma_leftmost(rest, part, 0);
    lemma_count_from(rest, part, 0);
}

proof fn lemma_count_shifted(front: Seq<char>, text: Seq<char>, part: Seq<char>, from: int)
    requires
        0 <= from,
        part.len() > 0,
    ensures
        count_from(front + text, part, front.len() + from) == count_from(text, part, from),
    decreases text.len() - from,
{
    let whole = front + text;
    if from + part.len() <= text.len() {
        let at = front.len() + from;
        assert(whole.subrange(at, at + part.len()) == text.subrange(from, from + part.len()));
        if occurs_at(text, part, from) {
            lemma_count_shifted(front, text, part, from + part.len());
        } else {
            lemma_count_shifted(front, text, part, from + 1);
        }
    }
}

/// A part stands in a text exactly where the text reads so, at a place of its own
/// if it reads so nowhere else.
pub proof fn a_part_stands_where_the_text_reads_so(text: Seq<char>, part: Seq<char>, at: int)
    ensures
        occurs_at(text, part, at) <==> 0 <= at && at + part.len() <= text.len() && (forall|i: int|
            0 <= i < part.len() ==> (#[trigger] part[i]) == text[at + i]),
        contains_text(text, part) <==> exists|k: int|
            0 <= k && k + part.len() <= text.len() && #[trigger] text.subrange(k, k + part.len())
                == part,
        only_at(text, part, at) ==> occurs_at(text, part, at) && forall|k: int|
            0 <= k && k + part.len() <= text.len() && #[trigger] text.subrange(k, k + part.len())
                == part ==> k == at,
{
    if 0 <= at && at + part.len() <= text.len() {
        let here = text.subrange(at, at + part.len());
        if forall|i: int| 0 <= i < part.len() ==> (#[trigger] part[i]) == text[at + i] {
            assert forall|i: int| 0 <= i < part.len() implies here[i] == part[i] by {
                assert(part[i] == text[at + i]);
            }
            assert(here == part);
        }
        if here == part {
            assert forall|i: int| 0 <= i < part.len() implies (#[trigger] part[i]) == text[at
                + i] by {
                assert(here[i] == text[at + i]);
            }
        }
    }
    if contains_text(text, part) {
        let k = choose|k: int| occurs_at(text, part, k);
        assert(text.subrange(k, k + part.len()) == part);
    }
    if exists|k: int|
        0 <= k && k + part.len() <= text.len() && #[trigger] text.subrange(k, k + part.len())
            == part {
        let k = choose|k: int|
            0 <= k && k + part.len() <= text.len() && #[trigger] text.subrange(k, k + part.len())
                == part;
        assert(occurs_at(text, part, k));
    }
    if only_at(text, part, at) {
        assert forall|k: int|
            0 <= k && k + part.len() <= text.len() && #[trigger] text.subrange(k, k + part.len())
                == part implies k == at by {
            assert(occurs_at(text, part, k));
        }
    }
}

} // verus!
