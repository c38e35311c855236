//! Server-sent events: from the bytes of a response body to the payloads of its
//! `data:` lines.

use vstd::prelude::*;

use crate::text::{decode_lossy, same_text, starts_with, trim, trim_trailing};

verus! {

/// The payload that ends a stream and says nothing else.
pub const DONE: &'static str = "[DONE]";

/// The byte that ends a line. It never stands inside the encoding of a character.
pub const LINE_END: u8 = 0x0a;

/// The lines of some bytes that are complete, without their ends.
pub open spec fn complete_lines(bytes: Seq<u8>) -> Seq<Seq<u8>> {
    crate::text::ended_pieces(bytes, LINE_END)
}

/// What follows the last end of line.
pub open spec fn open_line(bytes: Seq<u8>) -> Seq<u8> {
    crate::text::last_piece(bytes, LINE_END)
}

/// The texts of lines.
pub open spec fn line_texts(lines: Seq<Seq<u8>>) -> Seq<Seq<char>> {
    lines.map_values(|line: Seq<u8>| crate::text::decoded(line))
}

/// The payload of a line, if it has one: what a `data:` line carries, without
/// the whitespace around it, unless that is nothing or the end mark.
pub open spec fn payload_of(line: Seq<char>) -> Option<Seq<char>> {
    let line = crate::text::without_trailing(line, '\r');
    if "data:"@.is_prefix_of(line) {
        let payload = crate::text::trimmed(line.skip("data:"@.len() as int));
        if payload.len() > 0 && payload != DONE@ {
            Some(payload)
        } else {
            None
        }
    } else {
        None
    }
}

/// The payloads of lines, in order.
pub open spec fn payloads(lines: Seq<Seq<char>>) -> Seq<Seq<char>>
    decreases lines.len(),
{
    if lines.len() == 0 {
        Seq::empty()
    } else {
        match payload_of(lines.last()) {
            Some(payload) => payloads(lines.drop_last()).push(payload),
            None => payloads(lines.drop_last()),
        }
    }
}

/// The payloads of the lines that some bytes complete.
pub open spec fn payloads_in(bytes: Seq<u8>) -> Seq<Seq<char>> {
    payloads(line_texts(complete_lines(bytes)))
}

/// Reads an event stream piece by piece.
#[derive(Debug)]
pub struct SseReader {
    /// The line that is not complete yet. It stays undecoded until it is, so a
    /// character may be cut apart anywhere.
    pub buffer: Vec<u8>,
}

/// The payload of one line.
pub fn line_payload(line: &str) -> (payload: Option<String>)
    ensures
        crate::text_option(payload) == payload_of(line@),
{
    let line = trim_trailing(line, '\r');
    if !starts_with(line.as_str(), "data:") {
        return None;
    }
    let skipped: usize = "data:".unicode_len();
    let length: usize = line.as_str().unicode_len();
    let payload = trim(line.as_str().substring_char(skipped, length));
    assert(line@.subrange(skipped as int, length as int) == line@.skip("data:"@.len() as int));
    if payload.as_str().is_empty() || same_text(payload.as_str(), DONE) {
        return None;
    }
    Some(payload)
}

impl SseReader {
    /// A reader at the beginning of a stream.
    pub fn new() -> (reader: Self)
        ensures
            reader.buffer@ == Seq::<u8>::empty(),
    {
        SseReader { buffer: Vec::new() }
    }

    /// Take in the next piece of the body: the payloads of the lines it
    /// completes.
    pub fn feed(&mut self, chunk: &[u8]) -> (found: Vec<String>)
        ensures
            crate::texts_view(found@) == payloads_in(old(self).buffer@ + chunk@),
            final(self).buffer@ == open_line(old(self).buffer@ + chunk@),
    {
        let mut all = self.buffer.clone();
        all.extend_from_slice(chunk);
        let ghost bytes = old(self).buffer@ + chunk@;
        assert(all@ == bytes);
        let mut found: Vec<String> = Vec::new();
        let mut line: Vec<u8> = Vec::new();
        let mut i: usize = 0;
        proof {
            assert(line_texts(complete_lines(bytes.take(0))) == Seq::<Seq<char>>::empty());
            assert(crate::texts_view(found@) == payloads_in(bytes.take(0)));
        }
        while i < all.len()
            invariant
                i <= all.len(),
                all@ == bytes,
                line@ == open_line(bytes.take(i as int)),
                crate::texts_view(found@) == payloads_in(bytes.take(i as int)),
            decreases all.len() - i,
        {
            let ghost so_far = crate::texts_view(found@);
            let ghost lines = complete_lines(bytes.take(i as int));
            assert(bytes.take(i + 1).drop_last() == bytes.take(i as int));
            if all[i] == LINE_END {
                let text = decode_lossy(line.as_slice());
                proof {
                    assert(text@ == crate::text::decoded(line@));
                    assert(line_texts(lines.push(line@)) == line_texts(lines).push(text@));
                    assert(line_texts(lines).push(text@).drop_last() == line_texts(lines));
                }
                match line_payload(text.as_str()) {
                    Some(payload) => {
                        found.push(payload);
                        assert(crate::texts_view(found@) == so_far.push(payload@));
                    },
                    None => {},
                }
                line = Vec::new();
            } else {
                line.push(all[i]);
            }
            i = i + 1;
        }
        assert(bytes.take(bytes.len() as int) == bytes);
        self.buffer = line;
        found
    }
}

// --------------------------------------------------------------------- laws

proof fn lemma_payloads_concat(a: Seq<Seq<char>>, b: Seq<Seq<char>>)
    ensures
        payloads(a + b) == payloads(a) + payloads(b),
    decreases b.len(),
{
    if b.len() == 0 {
        assert(a + b == a);
    } else {
        lemma_payloads_concat(a, b.drop_last());
        assert((a + b).drop_last() == a + b.drop_last());
        assert(payloads(a + b) == payloads(a) + payloads(b));
    }
}

/// How the network cuts a body into pieces makes no difference, whatever the
/// bytes: reading it in two pieces finds what reading it in one would, and stops
/// at the same place.
pub proof fn pieces_make_no_difference(buffer: Seq<u8>, first: Seq<u8>, second: Seq<u8>)
    ensures
        payloads_in(buffer + (first + second)) == payloads_in(buffer + first) + payloads_in(
            open_line(buffer + first) + second,
        ),
        open_line(buffer + (first + second)) == open_line(open_line(buffer + first) + second),
{
    assert(buffer + (first + second) == (buffer + first) + second);
    crate::text::lemma_pieces_concat(buffer + first, second, LINE_END);
    let a = complete_lines(buffer + first);
    let b = complete_lines(open_line(buffer + first) + second);
    assert(line_texts(a + b) == line_texts(a) + line_texts(b));
    lemma_payloads_concat(line_texts(a), line_texts(b));
}

/// Only the character that ends a line is encoded with the byte that does.
proof fn lemma_line_end_stands_alone(c: char)
    ensures
        c == '\n' ==> vstd::utf8::encode_scalar(c as u32) == seq![LINE_END],
        c != '\n' ==> !vstd::utf8::encode_scalar(c as u32).contains(LINE_END),
{
    let v = c as u32;
    vstd::utf8::char_is_scalar(c);
    assert(v <= 0x7f ==> (v & 0x7f) as u8 == v) by (bit_vector);
    assert((0xC0 | ((v >> 6) & 0x1F) as u8) >= 0x80) by (bit_vector);
    assert((0xE0 | ((v >> 12) & 0x0F) as u8) >= 0x80) by (bit_vector);
    assert((0xF0 | ((v >> 18) & 0x7) as u8) >= 0x80) by (bit_vector);
    assert((0x80 | (v & 0x3F) as u8) >= 0x80) by (bit_vector);
    assert((0x80 | ((v >> 6) & 0x3F) as u8) >= 0x80) by (bit_vector);
    assert((0x80 | ((v >> 12) & 0x3F) as u8) >= 0x80) by (bit_vector);
    let bytes = vstd::utf8::encode_scalar(v);
    if c != '\n' {
        assert forall|i: int| 0 <= i < bytes.len() implies bytes[i] != LINE_END by {}
    }
}

/// The lines of an encoded text are its lines, encoded.
proof fn lemma_lines_of_encoded(text: Seq<char>)
    ensures
        complete_lines(vstd::utf8::encode_utf8(text)) == crate::text::ended_pieces(
            text,
            '\n',
        ).map_values(|line: Seq<char>| vstd::utf8::encode_utf8(line)),
        open_line(vstd::utf8::encode_utf8(text)) == vstd::utf8::encode_utf8(
            crate::text::last_piece(text, '\n'),
        ),
    decreases text.len(),
{
    let encode = |line: Seq<char>| vstd::utf8::encode_utf8(line);
    if text.len() == 0 {
        assert(complete_lines(vstd::utf8::encode_utf8(text)) == crate::text::ended_pieces(
            text,
            '\n',
        ).map_values(encode));
    } else {
        let before = text.drop_last();
        let c = text.last();
        lemma_lines_of_encoded(before);
        lemma_line_end_stands_alone(c);
        let bytes = vstd::utf8::encode_utf8(before);
        let more = vstd::utf8::encode_scalar(c as u32);
        let open = crate::text::last_piece(before, '\n');
        assert(vstd::utf8::encode_utf8(seq![c]) == more) by {
            reveal_with_fuel(vstd::utf8::encode_utf8, 2);
            assert(seq![c].drop_first() == Seq::<char>::empty());
            assert(more + Seq::<u8>::empty() == more);
        }
        assert(text == before + seq![c]);
        crate::text::lemma_encode_concat(before, seq![c]);
        if c == '\n' {
            assert((bytes + more).drop_last() == bytes);
            assert(complete_lines(bytes + more) == complete_lines(bytes).push(open_line(bytes)));
            assert(crate::text::ended_pieces(text, '\n').map_values(encode)
                == crate::text::ended_pieces(before, '\n').map_values(encode).push(encode(open)));
        } else {
            crate::text::lemma_pieces_of_part(bytes, more, LINE_END);
            assert(open.push(c) == open + seq![c]);
            crate::text::lemma_encode_concat(open, seq![c]);
        }
    }
}

/// A body that is valid UTF-8 is read as the lines of its text.
pub proof fn valid_bodies_are_read_as_text(bytes: Seq<u8>)
    requires
        vstd::utf8::valid_utf8(bytes),
    ensures
        line_texts(complete_lines(bytes)) == crate::text::ended_pieces(
            vstd::utf8::decode_utf8(bytes),
            '\n',
        ),
{
    let text = vstd::utf8::decode_utf8(bytes);
    let lines = crate::text::ended_pieces(text, '\n');
    vstd::utf8::decode_utf8_encode_utf8(bytes);
    lemma_lines_of_encoded(text);
    assert forall|i: int| 0 <= i < lines.len() implies crate::text::decoded(
        #[trigger] complete_lines(bytes)[i],
    ) == lines[i] by {
        vstd::utf8::encode_utf8_valid_utf8(lines[i]);
        vstd::utf8::encode_utf8_decode_utf8(lines[i]);
    }
    assert(line_texts(complete_lines(bytes)) == lines);
}

/// Pieces put together.
pub open spec fn whole(chunks: Seq<Seq<u8>>) -> Seq<u8>
    decreases chunks.len(),
{
    if chunks.len() == 0 {
        Seq::empty()
    } else {
        whole(chunks.drop_last()) + chunks.last()
    }
}

/// What a new reader finds in pieces, and the line it is left with.
pub open spec fn read_all(chunks: Seq<Seq<u8>>) -> (Seq<Seq<char>>, Seq<u8>)
    decreases chunks.len(),
{
    if chunks.len() == 0 {
        (Seq::empty(), Seq::empty())
    } else {
        let (found, buffer) = read_all(chunks.drop_last());
        (found + payloads_in(buffer + chunks.last()), open_line(buffer + chunks.last()))
    }
}

proof fn lemma_read_all(chunks: Seq<Seq<u8>>)
    ensures
        read_all(chunks).0 == payloads_in(whole(chunks)),
        read_all(chunks).1 == open_line(whole(chunks)),
    decreases chunks.len(),
{
    let nothing = Seq::<u8>::empty();
    if chunks.len() == 0 {
        assert(line_texts(complete_lines(nothing)) == Seq::<Seq<char>>::empty());
    } else {
        let before = whole(chunks.drop_last());
        lemma_read_all(chunks.drop_last());
        pieces_make_no_difference(nothing, before, chunks.last());
        assert(nothing + before == before);
        assert(nothing + (before + chunks.last()) == whole(chunks));
    }
}

/// However a text is cut into pieces, also through its characters, the payload of
/// each of its `data:` lines is handed over, in order, and nothing else.
pub proof fn every_payload_is_handed_over(chunks: Seq<Seq<u8>>)
    requires
        vstd::utf8::valid_utf8(whole(chunks)),
    ensures
        read_all(chunks).0 == payloads(
            crate::text::ended_pieces(vstd::utf8::decode_utf8(whole(chunks)), '\n'),
        ),
{
    lemma_read_all(chunks);
    valid_bodies_are_read_as_text(whole(chunks));
}

/// The same of two pieces.
pub proof fn a_cut_makes_no_difference(first: Seq<u8>, second: Seq<u8>)
    requires
        vstd::utf8::valid_utf8(first + second),
    ensures
        payloads_in(first) + payloads_in(open_line(first) + second) == payloads(
            crate::text::ended_pieces(vstd::utf8::decode_utf8(first + second), '\n'),
        ),
{
    let nothing = Seq::<u8>::empty();
    pieces_make_no_difference(nothing, first, second);
    assert(nothing + first == first);
    assert(nothing + (first + second) == first + second);
    valid_bodies_are_read_as_text(first + second);
}

/// The payload of a line is what stands behind `data:` without the whitespace
/// around it, character for character. A line that does not begin so has none, nor
/// has one that carries nothing or the mark that ends the stream.
pub proof fn a_payload_is_what_a_line_carries(
    before: Seq<char>,
    payload: Seq<char>,
    behind: Seq<char>,
    other: Seq<char>,
)
    requires
        crate::text::blank(before),
        crate::text::blank(behind),
        payload.len() > 0,
        !crate::text::is_white(payload[0]),
        !crate::text::is_white(payload.last()),
    ensures
        payload != "[DONE]"@ ==> payload_of("data:"@ + before + payload + behind) == Some(payload),
        payload == "[DONE]"@ ==> payload_of("data:"@ + before + payload + behind) is None,
        payload_of("data:"@ + before) is None,
        !"data:"@.is_prefix_of(other) ==> payload_of(other) is None,
{
    reveal_strlit("data:");
    let line = "data:"@ + before + payload + behind;
    lemma_payload_behind_mark(before + payload + behind);
    assert(line == "data:"@ + (before + payload + behind));
    crate::text::whitespace_around_a_text_goes(before, payload, behind);
    lemma_payload_behind_mark(before);
    crate::text::only_whitespace_goes(before);
    let kept = crate::text::trimmed(before);
    if kept.len() > 0 {
        let (front, back) = choose|front: Seq<char>, back: Seq<char>| #[trigger]
            crate::text::blank(front) && #[trigger] crate::text::blank(back) && before == front
                + kept + back;
        assert(before[front.len() as int] == kept[0]);
    }
    crate::text::only_the_end_goes(other, '\r');
    if !"data:"@.is_prefix_of(other) {
        let shorter = crate::text::without_trailing(other, '\r');
        if "data:"@.is_prefix_of(shorter) {
            assert(other.take(5) == shorter.take(5));
            assert("data:"@ == other.take(5));
        }
    }
}

/// Carriage returns at the end of a line are whitespace, too.
proof fn lemma_payload_behind_mark(rest: Seq<char>)
    ensures
        ({
            let payload = crate::text::trimmed(rest);
            payload_of("data:"@ + rest) == if payload.len() > 0 && payload != "[DONE]"@ {
                Some(payload)
            } else {
                None
            }
        }),
    decreases rest.len(),
{
    reveal_strlit("data:");
    let line = "data:"@ + rest;
    let shorter = crate::text::without_trailing(line, '\r');
    assert("data:"@.len() == 5 && "data:"@[4] == ':');
    if rest.len() > 0 && rest.last() == '\r' {
        let less = rest.drop_last();
        lemma_payload_behind_mark(less);
        assert(line.drop_last() == "data:"@ + less);
        lemma_trimming_ignores_the_last(less, '\r');
        assert(less.push('\r') == rest);
        assert(payload_of(line) == payload_of("data:"@ + less));
    } else {
        assert(line.last() != '\r') by {
            if rest.len() == 0 {
                assert(line == "data:"@);
            }
        }
        assert(shorter == line);
        assert(line.skip(5) == rest);
        assert(line.take(5) == "data:"@);
        assert("data:"@.is_prefix_of(line));
    }
}

proof fn lemma_trimming_ignores_the_last(text: Seq<char>, c: char)
    requires
        crate::text::is_white(c),
    ensures
        crate::text::trimmed(text.push(c)) == crate::text::trimmed(text),
    decreases text.len(),
{
    let longer = text.push(c);
    if text.len() > 0 && crate::text::is_white(text[0]) {
        lemma_trimming_ignores_the_last(text.drop_first(), c);
        assert(longer.drop_first() == text.drop_first().push(c));
    } else if text.len() > 0 {
        assert(longer.drop_last() == text);
    } else {
        assert(longer.drop_first() == Seq::<char>::empty());
        assert(crate::text::trimmed_start(longer) == Seq::<char>::empty()) by {
            reveal_with_fuel(crate::text::trimmed_start, 2);
        }
    }
}

/// Each line with its payload is handed over at its place, and the others leave no
/// trace.
pub proof fn payloads_come_in_the_order_of_their_lines(
    before: Seq<Seq<char>>,
    line: Seq<char>,
    behind: Seq<Seq<char>>,
)
    ensures
        payloads(before + seq![line] + behind) == match payload_of(line) {
            Some(payload) => payloads(before) + seq![payload] + payloads(behind),
            None => payloads(before) + payloads(behind),
        },
        payloads(Seq::empty()) == Seq::<Seq<char>>::empty(),
{
    let none = Seq::<Seq<char>>::empty();
    lemma_payloads_concat(before + seq![line], behind);
    lemma_payloads_concat(before, seq![line]);
    assert(seq![line].drop_last() == none);
    reveal_with_fuel(payloads, 2);
    assert(payloads(seq![line]) == match payload_of(line) {
        Some(payload) => seq![payload],
        None => none,
    });
    assert(payloads(before) + none == payloads(before));
}

/// Lines, each with the character that ends it.
pub open spec fn body_of(lines: Seq<Seq<char>>) -> Seq<char>
    decreases lines.len(),
{
    if lines.len() == 0 {
        Seq::empty()
    } else {
        (body_of(lines.drop_last()) + lines.last()).push('\n')
    }
}

pub proof fn lemma_lines_of_body(lines: Seq<Seq<char>>)
    requires
        forall|i: int| 0 <= i < lines.len() ==> !(#[trigger] lines[i]).contains('\n'),
    ensures
        crate::text::ended_pieces(body_of(lines), '\n') == lines,
        crate::text::last_piece(body_of(lines), '\n') == Seq::<char>::empty(),
    decreases lines.len(),
{
    if lines.len() > 0 {
        let before = lines.drop_last();
        assert forall|i: int| 0 <= i < before.len() implies !(#[trigger] before[i]).contains(
            '\n',
        ) by {
            assert(!lines[i].contains('\n'));
        }
        lemma_lines_of_body(before);
        assert(!lines[lines.len() - 1].contains('\n'));
        crate::text::lemma_pieces_of_part(body_of(before), lines.last(), '\n');
        assert(body_of(lines).drop_last() == body_of(before) + lines.last());
        assert(Seq::<char>::empty() + lines.last() == lines.last());
        assert(before.push(lines.last()) == lines);
    } else {
        assert(crate::text::ended_pieces(body_of(lines), '\n') == lines);
    }
}

/// Whatever lines a body holds, and however it is cut on its way, the reader hands
/// over the payload of each of these lines, in order, and nothing else.
pub proof fn every_line_of_a_body_is_read(lines: Seq<Seq<char>>, chunks: Seq<Seq<u8>>)
    requires
        forall|i: int| 0 <= i < lines.len() ==> !(#[trigger] lines[i]).contains('\n'),
        whole(chunks) == vstd::utf8::encode_utf8(body_of(lines)),
    ensures
        read_all(chunks).0 == payloads(lines),
{
    lemma_lines_of_body(lines);
    vstd::utf8::encode_utf8_valid_utf8(body_of(lines));
    vstd::utf8::encode_utf8_decode_utf8(body_of(lines));
    every_payload_is_handed_over(chunks);
}

/// Byte lines, each with the byte that ends it.
pub open spec fn bytes_of(lines: Seq<Seq<u8>>) -> Seq<u8>
    decreases lines.len(),
{
    if lines.len() == 0 {
        Seq::empty()
    } else {
        (bytes_of(lines.drop_last()) + lines.last()).push(0x0a)
    }
}

proof fn lemma_lines_of_bytes(lines: Seq<Seq<u8>>)
    requires
        forall|i: int| 0 <= i < lines.len() ==> !(#[trigger] lines[i]).contains(0x0a),
    ensures
        complete_lines(bytes_of(lines)) == lines,
        open_line(bytes_of(lines)) == Seq::<u8>::empty(),
    decreases lines.len(),
{
    if lines.len() > 0 {
        let before = lines.drop_last();
        assert forall|i: int| 0 <= i < before.len() implies !(#[trigger] before[i]).contains(
            0x0a,
        ) by {
            assert(!lines[i].contains(0x0a));
        }
        lemma_lines_of_bytes(before);
        assert(!lines[lines.len() - 1].contains(0x0a));
        crate::text::lemma_pieces_of_part(bytes_of(before), lines.last(), LINE_END);
        assert(bytes_of(lines).drop_last() == bytes_of(before) + lines.last());
        assert(Seq::<u8>::empty() + lines.last() == lines.last());
        assert(before.push(lines.last()) == lines);
    } else {
        assert(complete_lines(bytes_of(lines)) == lines);
    }
}

/// Lines are decoded each by itself, also where their bytes are no valid text: a
/// line that is damaged does not touch the others. What follows the last end of
/// line is kept for later.
pub proof fn lines_are_decoded_one_by_one(lines: Seq<Seq<u8>>, rest: Seq<u8>)
    requires
        forall|i: int| 0 <= i < lines.len() ==> !(#[trigger] lines[i]).contains(0x0a),
        !rest.contains(0x0a),
    ensures
        payloads_in(bytes_of(lines) + rest) == payloads(
            Seq::new(lines.len(), |i: int| crate::text::decoded(lines[i])),
        ),
        open_line(bytes_of(lines) + rest) == rest,
{
    lemma_lines_of_bytes(lines);
    crate::text::lemma_pieces_of_part(bytes_of(lines), rest, LINE_END);
    assert(Seq::<u8>::empty() + rest == rest);
    assert(line_texts(lines) == Seq::new(
        lines.len(),
        |i: int| crate::text::decoded(lines[i]),
    ));
}

} // verus!
