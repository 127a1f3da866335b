//! What holds of the bodies of messages, over the writer and the reader.

use crate::error::ErrorKind;
use crate::util::http::numbers::{
    digits_number, hex_digit, hex_digits, hex_value_of, number_in, trimmed_number,
};
use crate::util::http::request::{chunk_bytes, crlf, last_chunk_bytes};
use crate::util::http::response::{
    after_line, body_read, data_read, is_too_long, line_len, read_line_spec, start_of_body,
    BodyState, TransferEncodingType,
};
use crate::util::text::{is_whitespace, trim, trim_end, trim_start};
use vstd::prelude::*;
use vstd::utf8::{decode_utf8, encode_utf8, is_ascii_chars, valid_utf8};

verus! {

/// What is sent for a body that is written in chunks, one chunk for each
/// of `writes`, and then ended.
pub open spec fn chunked_stream(writes: Seq<Seq<u8>>) -> Seq<u8>
    decreases writes.len(),
{
    if writes.len() == 0 {
        last_chunk_bytes()
    } else {
        chunk_bytes(writes[0]) + chunked_stream(writes.drop_first())
    }
}

/// All of `writes`, one after the other.
pub open spec fn concat(writes: Seq<Seq<u8>>) -> Seq<u8>
    decreases writes.len(),
{
    if writes.len() == 0 {
        Seq::empty()
    } else {
        writes[0] + concat(writes.drop_first())
    }
}

/// What reading a body to its end gives, by reads of at most `max_len`
/// bytes: all bytes up to the first read that gives none, or the kind of the
/// first error.
pub open spec fn read_to_end(state: BodyState, max_len: usize) -> Result<Seq<u8>, ErrorKind>
    decreases state.stream.len(),
{
    let step = body_read(state, max_len);
    match step.0 {
        Err(kind) => Err(kind),
        Ok(bytes) => if bytes.len() == 0 || step.1.stream.len() >= state.stream.len() {
            Ok(bytes)
        } else {
            match read_to_end(step.1, max_len) {
                Ok(rest) => Ok(bytes + rest),
                Err(kind) => Err(kind),
            }
        },
    }
}

/// The state of the reading of a chunked body between two chunks.
pub open spec fn between_chunks(stream: Seq<u8>) -> BodyState {
    start_of_body(Some(TransferEncodingType::Chunked), stream)
}

/// The state of the reading of a chunked body within a chunk of which
/// `left` bytes are still to come.
pub open spec fn within_chunk(left: usize, stream: Seq<u8>) -> BodyState {
    BodyState {
        encoding: Some(TransferEncodingType::Chunked),
        is_eof: false,
        chunk_bytes_remaining: left,
        stream,
    }
}

/// The characters that ASCII bytes stand for.
pub open spec fn ascii_chars(bytes: Seq<u8>) -> Seq<char> {
    bytes.map_values(|b: u8| b as char)
}

/// 16 to the power of `k`.
pub open spec fn pow16(k: nat) -> nat
    decreases k,
{
    if k == 0 {
        1
    } else {
        16 * pow16((k - 1) as nat)
    }
}

/// A number below 16 to the power of `k` has at most `k` hexadecimal
/// digits.
proof fn lemma_hex_len(n: nat, k: nat)
    requires
        k >= 1,
        n < pow16(k),
    ensures
        1 <= hex_digits(n).len() <= k,
    decreases k,
{
    if n >= 16 {
        assert(k >= 2) by {
            if k == 1 {
                assert(pow16(1) == 16 * pow16(0));
            }
        }
        assert(n / 16 < pow16((k - 1) as nat));
        lemma_hex_len(n / 16, (k - 1) as nat);
    }
}

/// A number that fits in a `usize` has at most 16 hexadecimal digits.
proof fn lemma_hex_len_usize(n: nat)
    requires
        n <= usize::MAX,
    ensures
        1 <= hex_digits(n).len() <= 16,
{
    reveal_with_fuel(pow16, 17);
    assert(pow16(16) == 0x1_0000_0000_0000_0000);
    lemma_hex_len(n, 16);
}

/// Hexadecimal digits are ASCII letters and digits, and read as digits
/// they give the number back.
proof fn lemma_hex_digits(n: nat)
    ensures
        forall|i: int|
            0 <= i < hex_digits(n).len() ==> hex_value_of((#[trigger] hex_digits(n)[i]) as char)
                is Some && hex_digits(n)[i] < 128,
        digits_number(16, ascii_chars(hex_digits(n))) == Some(n),
    decreases n,
{
    let digits = hex_digits(n);
    let chars = ascii_chars(digits);
    assert(hex_value_of(hex_digit(n % 16) as char) == Some(n % 16) && hex_digit(n % 16) < 128) by {
        lemma_hex_digit(n % 16);
    }
    if n < 16 {
        assert(chars.drop_last() =~= Seq::<char>::empty());
        assert(chars.last() == hex_digit(n) as char);
        assert(digits_number(16, chars.drop_last()) == Some(0nat));
    } else {
        lemma_hex_digits(n / 16);
        let head = hex_digits(n / 16);
        assert(chars.drop_last() =~= ascii_chars(head));
        assert(chars.last() == hex_digit(n % 16) as char);
        assert forall|i: int| 0 <= i < digits.len() implies hex_value_of(
            (#[trigger] digits[i]) as char,
        ) is Some && digits[i] < 128 by {
            if i < head.len() {
                assert(digits[i] == head[i]);
            }
        }
    }
}

/// The hexadecimal digit for a value below 16 is read as that value.
proof fn lemma_hex_digit(value: nat)
    requires
        value < 16,
    ensures
        hex_value_of(hex_digit(value) as char) == Some(value),
        hex_digit(value) < 128,
        !is_whitespace(hex_digit(value) as char),
        hex_digit(value) != 10,
        hex_digit(value) as char != '+',
{
    let b = hex_digit(value);
    let c = b as char;
    assert(c as u32 == b as u32);
}

/// ASCII bytes are valid UTF-8 and stand for one character each.
proof fn lemma_ascii_text(bytes: Seq<u8>)
    requires
        forall|i: int| 0 <= i < bytes.len() ==> #[trigger] bytes[i] < 128,
    ensures
        valid_utf8(bytes),
        decode_utf8(bytes) == ascii_chars(bytes),
{
    let chars = ascii_chars(bytes);
    assert(is_ascii_chars(chars)) by {
        assert forall|i: int| 0 <= i < chars.len() implies '\0' <= #[trigger] chars[i]
            <= '\u{7f}' by {
            assert(chars[i] == bytes[i] as char);
            assert((bytes[i] as char) as u32 == bytes[i] as u32);
        }
    }
    vstd::utf8::is_ascii_chars_encode_utf8(chars);
    assert(encode_utf8(chars) =~= bytes) by {
        assert forall|i: int| 0 <= i < bytes.len() implies encode_utf8(chars)[i] == bytes[i] by {
            assert(chars[i] == bytes[i] as char);
            assert((bytes[i] as char) as u32 == bytes[i] as u32);
            assert(chars[i] as u8 == encode_utf8(chars)[i]);
        }
    }
    vstd::utf8::encode_utf8_valid_utf8(chars);
    vstd::utf8::encode_utf8_decode_utf8(chars);
}

/// The first line of bytes without a line feed, followed by the end of a
/// line, is those bytes with that end.
proof fn lemma_first_line(head: Seq<u8>, tail: Seq<u8>)
    requires
        forall|i: int| 0 <= i < head.len() ==> #[trigger] head[i] != 10,
    ensures
        line_len(head + crlf() + tail) == head.len() + 2,
    decreases head.len(),
{
    let stream = head + crlf() + tail;
    if head.len() == 0 {
        assert(stream[0] == 13);
        assert(stream.drop_first()[0] == 10);
        assert(line_len(stream.drop_first()) == 1);
        assert(line_len(stream) == 1 + line_len(stream.drop_first()));
    } else {
        assert(stream[0] == head[0]);
        assert(stream.drop_first() =~= head.drop_first() + crlf() + tail);
        assert(line_len(stream) == 1 + line_len(stream.drop_first()));
        assert forall|i: int| 0 <= i < head.drop_first().len() implies #[trigger] head.drop_first()[i]
            != 10 by {
            assert(head.drop_first()[i] == head[i + 1]);
        }
        lemma_first_line(head.drop_first(), tail);
    }
}

/// Whitespace at the start of a text that starts with none is none.
proof fn lemma_trim_digits(digits: Seq<char>)
    requires
        digits.len() > 0,
        forall|i: int| 0 <= i < digits.len() ==> !is_whitespace(#[trigger] digits[i]),
    ensures
        trim(digits + seq!['\r', '\n']) == digits,
{
    let line = digits + seq!['\r', '\n'];
    assert(line[0] == digits[0]);
    assert(trim_start(line) == line);
    let without_lf = digits + seq!['\r'];
    assert(line.last() == '\n');
    assert(line.drop_last() =~= without_lf);
    assert(without_lf.last() == '\r');
    assert(without_lf.drop_last() =~= digits);
    assert(digits.last() == digits[digits.len() - 1]);
    assert(trim_end(digits) == digits);
    assert(trim_end(without_lf) == trim_end(digits));
    assert(trim_end(line) == trim_end(without_lf));
}

/// The line that holds the size of a chunk is read as that size, and the
/// chunk follows it.
proof fn lemma_size_line(n: nat, tail: Seq<u8>)
    requires
        n <= usize::MAX,
    ensures
        !is_too_long(hex_digits(n) + crlf() + tail),
        read_line_spec(hex_digits(n) + crlf() + tail) matches Ok(line) && trimmed_number(16, line)
            == Some(n as usize),
        after_line(hex_digits(n) + crlf() + tail) == tail,
{
    let digits = hex_digits(n);
    let stream = digits + crlf() + tail;
    lemma_hex_len_usize(n);
    lemma_hex_digits(n);
    assert forall|i: int| 0 <= i < digits.len() implies #[trigger] digits[i] != 10 by {
        assert(hex_value_of(digits[i] as char) is Some);
        assert((digits[i] as char) as u32 == digits[i] as u32);
    }
    lemma_first_line(digits, tail);
    let n_line = digits.len() + 2;
    let bytes = stream.take(n_line as int);
    assert(bytes =~= digits + crlf());
    assert(stream.skip(n_line as int) =~= tail);
    assert forall|i: int| 0 <= i < bytes.len() implies #[trigger] bytes[i] < 128 by {
        if i < digits.len() {
            assert(bytes[i] == digits[i]);
        }
    }
    lemma_ascii_text(bytes);
    let chars = ascii_chars(digits);
    let line = ascii_chars(bytes);
    assert(line =~= chars + seq!['\r', '\n']) by {
        assert(line.len() == chars.len() + 2);
        assert forall|i: int| 0 <= i < line.len() implies line[i] == (chars + seq![
            '\r',
            '\n',
        ])[i] by {
            if i < digits.len() {
                assert(bytes[i] == digits[i]);
            } else if i == digits.len() {
                assert(bytes[i] == 13);
                assert((13u8 as char) == '\r');
            } else {
                assert(bytes[i] == 10);
                assert((10u8 as char) == '\n');
            }
        }
    }
    assert forall|i: int| 0 <= i < chars.len() implies !is_whitespace(#[trigger] chars[i]) by {
        assert(chars[i] == digits[i] as char);
        assert(hex_value_of(digits[i] as char) is Some);
    }
    lemma_trim_digits(chars);
    assert(chars[0] != '+') by {
        assert(hex_value_of(digits[0] as char) is Some);
    }
    assert(number_in(16, chars) == Some(n as usize));
}

/// Reading what is left of a chunk to the end of the body gives what is
/// left of the chunk and then what the rest of the stream gives.
proof fn lemma_chunk(data: Seq<u8>, tail: Seq<u8>, max_len: usize)
    requires
        max_len >= 1,
        1 <= data.len() <= usize::MAX,
    ensures
        read_to_end(within_chunk(data.len() as usize, data + crlf() + tail), max_len) == (
        match read_to_end(between_chunks(tail), max_len) {
            Ok(rest) => Ok::<Seq<u8>, ErrorKind>(data + rest),
            Err(kind) => Err(kind),
        }),
    decreases data.len(),
{
    let stream = data + crlf() + tail;
    let state = within_chunk(data.len() as usize, stream);
    let n = if max_len <= data.len() {
        max_len as int
    } else {
        data.len() as int
    };
    let step = body_read(state, max_len);
    assert(step == data_read(state, max_len, true));
    assert(stream.take(n) =~= data.take(n));
    if n < data.len() {
        let left = data.skip(n);
        assert(stream.skip(n) =~= left + crlf() + tail);
        assert(step.1 == within_chunk(left.len() as usize, left + crlf() + tail));
        lemma_chunk(left, tail, max_len);
        assert forall|rest: Seq<u8>| #[trigger] (data.take(n) + (left + rest)) == data + rest by {
            assert(data.take(n) + (left + rest) =~= data + rest);
        }
    } else {
        assert(data.take(n) =~= data);
        assert(stream.skip(n) =~= crlf() + tail);
        assert(stream.skip(n).skip(2) =~= tail);
        assert(step.1 == between_chunks(tail));
    }
}

/// **Chunked round trip.** A body that is written in chunks, by writes of
/// any lengths, and then ended is read back as the bytes that were written,
/// whatever the length of the reads.
pub proof fn law_chunked_round_trip(writes: Seq<Seq<u8>>, max_len: usize)
    requires
        max_len >= 1,
        forall|i: int| 0 <= i < writes.len() ==> (#[trigger] writes[i]).len() <= usize::MAX,
    ensures
        read_to_end(between_chunks(chunked_stream(writes)), max_len) == Ok::<Seq<u8>, ErrorKind>(
            concat(writes),
        ),
    decreases writes.len(),
{
    let stream = chunked_stream(writes);
    let state = between_chunks(stream);
    if writes.len() == 0 {
        assert(hex_digits(0) =~= seq![0x30u8]);
        assert(stream =~= hex_digits(0) + crlf() + crlf());
        lemma_size_line(0, crlf());
    } else {
        let data = writes[0];
        let tail = chunked_stream(writes.drop_first());
        assert forall|i: int| 0 <= i < writes.drop_first().len() implies (
        #[trigger] writes.drop_first()[i]).len() <= usize::MAX by {
            assert(writes.drop_first()[i] == writes[i + 1]);
        }
        law_chunked_round_trip(writes.drop_first(), max_len);
        if data.len() == 0 {
            assert(stream =~= tail);
            assert(concat(writes) =~= concat(writes.drop_first()));
        } else {
            let chunk = data + crlf() + tail;
            assert(stream =~= hex_digits(data.len()) + crlf() + chunk);
            lemma_size_line(data.len(), chunk);
            lemma_chunk(data, tail, max_len);
            let inner = within_chunk(data.len() as usize, chunk);
            assert(body_read(state, max_len) == body_read(inner, max_len));
            let step = body_read(state, max_len);
            assert(step == data_read(inner, max_len, true));
            assert(chunk.len() < stream.len());
        }
    }
}

} // verus!
