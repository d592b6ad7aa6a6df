//! Text forms of proof bytes for the command line: lower-case hex, and the
//! Candid blob literal, which escapes each byte as `\XX`.

use vstd::prelude::*;
use vstd::slice::slice_subrange;
use vstd::string::*;
use vstd::utf8::*;

verus! {

/// The lower-case hex digit of a value below 16.
pub open spec fn hex_digit(n: int) -> char {
    if n < 10 {
        (48 + n) as char
    } else {
        (87 + n) as char
    }
}

/// The two lower-case hex digits of a byte, high digit first.
pub open spec fn byte_hex(b: u8) -> Seq<char> {
    seq![hex_digit((b / 16) as int), hex_digit((b % 16) as int)]
}

/// The value of a lower-case hex digit.
pub open spec fn hex_value(c: char) -> int {
    if 48 <= c as u32 <= 57 {
        c as u32 - 48
    } else {
        c as u32 - 87
    }
}

/// The two hex digits of a byte are lower-case hex digits that spell the
/// byte, high digit first.
pub proof fn lemma_byte_hex_spells_the_byte(b: u8)
    ensures
        byte_hex(b).len() == 2,
        forall|i: int|
            0 <= i < 2 ==> {
                let c = #[trigger] byte_hex(b)[i];
                ('0' <= c <= '9') || ('a' <= c <= 'f')
            },
        16 * hex_value(byte_hex(b)[0]) + hex_value(byte_hex(b)[1]) == b,
{
}

/// Lower-case hex of a byte string, two digits per byte, as
/// `format!("{b:02x}")` writes each byte.
pub open spec fn hex_spec(bytes: Seq<u8>) -> Seq<char>
    decreases bytes.len(),
{
    if bytes.len() == 0 {
        seq![]
    } else {
        byte_hex(bytes[0]) + hex_spec(bytes.drop_first())
    }
}

/// The one-character string holding the hex digit of a value below 16.
fn hex_digit_str(n: u8) -> (s: &'static str)
    requires
        n < 16,
    ensures
        s@ == seq![hex_digit(n as int)],
{
    match n {
        0 => { proof { reveal_strlit("0"); } "0" },
        1 => { proof { reveal_strlit("1"); } "1" },
        2 => { proof { reveal_strlit("2"); } "2" },
        3 => { proof { reveal_strlit("3"); } "3" },
        4 => { proof { reveal_strlit("4"); } "4" },
        5 => { proof { reveal_strlit("5"); } "5" },
        6 => { proof { reveal_strlit("6"); } "6" },
        7 => { proof { reveal_strlit("7"); } "7" },
        8 => { proof { reveal_strlit("8"); } "8" },
        9 => { proof { reveal_strlit("9"); } "9" },
        10 => { proof { reveal_strlit("a"); } "a" },
        11 => { proof { reveal_strlit("b"); } "b" },
        12 => { proof { reveal_strlit("c"); } "c" },
        13 => { proof { reveal_strlit("d"); } "d" },
        14 => { proof { reveal_strlit("e"); } "e" },
        _ => { proof { reveal_strlit("f"); } "f" },
    }
}

/// Writes bytes as lower-case hex, two digits per byte.
pub fn hex_encode(bytes: &[u8]) -> (s: String)
    ensures
        s@ == hex_spec(bytes@),
{
    let n = bytes.len();
    let mut s = String::new();
    let mut i: usize = 0;
    proof {
        assert(bytes@.skip(0) =~= bytes@);
    }
    while i < n
        invariant
            n == bytes@.len(),
            i <= n,
            hex_spec(bytes@) == s@ + hex_spec(bytes@.skip(i as int)),
        decreases n - i,
    {
        let b = bytes[i];
        proof {
            assert(bytes@.skip(i as int).drop_first() =~= bytes@.skip(i + 1));
            assert(bytes@.skip(i as int)[0] == b);
        }
        s.append(hex_digit_str(b / 16));
        s.append(hex_digit_str(b % 16));
        proof {
            assert(s@ + hex_spec(bytes@.skip(i + 1)) =~= (s@.drop_last().drop_last() + byte_hex(b))
                + hex_spec(bytes@.skip(i + 1)));
        }
        i = i + 1;
    }
    proof {
        assert(bytes@.skip(n as int) =~= Seq::<u8>::empty());
    }
    s
}

/// The number of bytes in the next chunk: two, or one at an odd end.
pub open spec fn chunk_len(b: Seq<u8>) -> int {
    if b.len() >= 2 {
        2
    } else {
        b.len() as int
    }
}

/// Every two-byte chunk of the bytes (and a last single byte) is valid
/// UTF-8 on its own.
pub open spec fn chunks_valid_utf8(b: Seq<u8>) -> bool
    decreases b.len(),
{
    b.len() > 0 ==> valid_utf8(b.take(chunk_len(b))) && chunks_valid_utf8(b.skip(chunk_len(b)))
}

/// The Candid blob text for a byte string whose two-byte chunks are valid
/// UTF-8: each chunk, read as text, preceded by a backslash.
pub open spec fn candid_blob_spec(b: Seq<u8>) -> Seq<char>
    decreases b.len(),
{
    if b.len() == 0 {
        seq![]
    } else {
        seq!['\\'] + decode_utf8(b.take(chunk_len(b))) + candid_blob_spec(b.skip(chunk_len(b)))
    }
}

/// `std::str::from_utf8`, keeping the string and dropping the error. The
/// contract claims what the function's documentation says: it succeeds
/// exactly on valid UTF-8, and the string then holds the characters that
/// the bytes encode.
#[verifier::external_body]
fn str_from_utf8(bytes: &[u8]) -> (s: Option<&str>)
    ensures
        s is Some <==> valid_utf8(bytes@),
        s matches Some(text) ==> text@ == decode_utf8(bytes@),
{
    std::str::from_utf8(bytes).ok()
}

/// Rewrites a hex string into a Candid blob literal body: each two-byte
/// chunk `XX` of the text becomes `\XX`.
pub fn hex_to_candid_blob(hex: &str) -> (blob: String)
    requires
        chunks_valid_utf8(hex.spec_bytes()),
    ensures
        blob@ == candid_blob_spec(hex.spec_bytes()),
{
    let bytes = hex.as_bytes();
    let n = bytes.len();
    let mut blob = String::new();
    let mut i: usize = 0;
    proof {
        assert(bytes@.skip(0) =~= bytes@);
        reveal_strlit("\\");
    }
    while i < n
        invariant
            n == bytes@.len(),
            bytes@ == hex.spec_bytes(),
            i <= n,
            candid_blob_spec(bytes@) == blob@ + candid_blob_spec(bytes@.skip(i as int)),
            chunks_valid_utf8(bytes@.skip(i as int)),
            "\\"@ == seq!['\\'],
        decreases n - i,
    {
        let end: usize = if n - i >= 2 {
            i + 2
        } else {
            n
        };
        let ghost rest = bytes@.skip(i as int);
        let chunk = slice_subrange(bytes, i, end);
        proof {
            assert(rest.take(chunk_len(rest)) =~= chunk@);
            assert(rest.skip(chunk_len(rest)) =~= bytes@.skip(end as int));
        }
        let ghost before = blob@;
        blob.append("\\");
        match str_from_utf8(chunk) {
            Some(text) => {
                blob.append(text);
            },
            None => {},
        }
        proof {
            assert(candid_blob_spec(rest) =~= seq!['\\'] + decode_utf8(chunk@) + candid_blob_spec(
                bytes@.skip(end as int),
            ));
            assert(blob@ =~= before + seq!['\\'] + decode_utf8(chunk@));
        }
        i = end;
    }
    proof {
        assert(bytes@.skip(n as int) =~= Seq::<u8>::empty());
    }
    blob
}

/// Each byte escaped as a backslash followed by its two lower-case hex
/// digits.
pub open spec fn escaped_bytes_spec(bytes: Seq<u8>) -> Seq<char>
    decreases bytes.len(),
{
    if bytes.len() == 0 {
        seq![]
    } else {
        seq!['\\'] + byte_hex(bytes[0]) + escaped_bytes_spec(bytes.drop_first())
    }
}

/// The UTF-8 encoding of a concatenation is the concatenation of the
/// encodings.
pub proof fn lemma_encode_utf8_concat(a: Seq<char>, b: Seq<char>)
    ensures
        encode_utf8(a + b) == encode_utf8(a) + encode_utf8(b),
    decreases a.len(),
{
    if a.len() > 0 {
        assert((a + b).drop_first() =~= a.drop_first() + b);
        lemma_encode_utf8_concat(a.drop_first(), b);
        assert(encode_utf8(a + b) =~= encode_utf8(a) + encode_utf8(b));
    } else {
        assert(a + b =~= b);
    }
}

/// The two hex digits of a byte encode as two bytes of UTF-8.
proof fn lemma_byte_hex_encoding_len(b: u8)
    ensures
        encode_utf8(byte_hex(b)).len() == 2,
{
    let h = byte_hex(b);
    assert(has_width_1_encoding(h[0] as u32));
    assert(has_width_1_encoding(h[1] as u32));
    assert(h.drop_first().drop_first() =~= Seq::<char>::empty());
    assert(encode_utf8(h.drop_first()) =~= encode_scalar(h[1] as u32) + encode_utf8(
        h.drop_first().drop_first(),
    ));
}

/// The Candid blob text of the hex of some bytes escapes each byte as a
/// backslash and its two hex digits; every chunk of the hex is valid UTF-8
/// on its own, so the hex is always accepted.
pub proof fn lemma_candid_blob_of_hex(bytes: Seq<u8>)
    ensures
        chunks_valid_utf8(encode_utf8(hex_spec(bytes))),
        candid_blob_spec(encode_utf8(hex_spec(bytes))) == escaped_bytes_spec(bytes),
    decreases bytes.len(),
{
    if bytes.len() == 0 {
        assert(hex_spec(bytes) =~= Seq::<char>::empty());
    } else {
        let h = byte_hex(bytes[0]);
        let r = hex_spec(bytes.drop_first());
        let e = encode_utf8(hex_spec(bytes));
        lemma_encode_utf8_concat(h, r);
        lemma_byte_hex_encoding_len(bytes[0]);
        lemma_candid_blob_of_hex(bytes.drop_first());
        assert(chunk_len(e) == 2);
        assert(e.take(2) =~= encode_utf8(h));
        assert(e.skip(2) =~= encode_utf8(r));
        encode_utf8_valid_utf8(h);
        encode_utf8_decode_utf8(h);
    }
}

} // verus!
