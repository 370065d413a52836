//! Payload sanitization: stripping of terminal control sequences from raw
//! bytes, followed by strict UTF-8 validation.
//!
//! The stripper removes CSI sequences (`ESC [` up to and including a final
//! byte), OSC sequences (`ESC ]` up to a terminating BEL, or up to the `ESC`
//! of an `ESC \` string terminator), and any other two-byte escape sequence.
//! Every other byte passes through unchanged.

use vstd::prelude::*;
use vstd::utf8::*;

verus! {

/// Stripped form of a byte sequence read in the ordinary (outside any escape
/// sequence) state: bytes pass through until an ESC starts a sequence.
pub open spec fn strip_ansi(s: Seq<u8>) -> Seq<u8>
    decreases s.len(), 3int,
{
    if s.len() == 0 {
        seq![]
    } else if s[0] == 0x1b {
        strip_after_esc(s.skip(1))
    } else {
        seq![s[0]] + strip_ansi(s.skip(1))
    }
}

/// Stripped form of the bytes that follow an ESC: `[` opens a CSI sequence,
/// `]` opens an OSC sequence, and any other byte closes a two-byte sequence.
pub open spec fn strip_after_esc(s: Seq<u8>) -> Seq<u8>
    decreases s.len(), 2int,
{
    if s.len() == 0 {
        seq![]
    } else if s[0] == 0x5b {
        strip_csi(s.skip(1))
    } else if s[0] == 0x5d {
        strip_osc(s.skip(1))
    } else {
        strip_ansi(s.skip(1))
    }
}

/// Stripped form of the bytes inside a CSI sequence: parameter and
/// intermediate bytes (0x20..=0x3f) are skipped, and the first byte outside
/// that range is the final byte, consumed with the sequence.
pub open spec fn strip_csi(s: Seq<u8>) -> Seq<u8>
    decreases s.len(), 1int,
{
    if s.len() == 0 {
        seq![]
    } else if 0x20 <= s[0] <= 0x3f {
        strip_csi(s.skip(1))
    } else {
        strip_ansi(s.skip(1))
    }
}

/// Stripped form of the bytes inside an OSC sequence: consumed up to a BEL
/// terminator, or up to an ESC, which ends the sequence and is interpreted
/// anew (so that the `ESC \` string terminator is consumed as a two-byte
/// escape sequence).
pub open spec fn strip_osc(s: Seq<u8>) -> Seq<u8>
    decreases s.len(), 0int,
{
    if s.len() == 0 {
        seq![]
    } else if s[0] == 0x07 {
        strip_ansi(s.skip(1))
    } else if s[0] == 0x1b {
        strip_after_esc(s.skip(1))
    } else {
        strip_osc(s.skip(1))
    }
}

/// The stripper's parsing state, one variant per spec function above.
#[derive(Clone, Copy)]
enum StripMode {
    Plain,
    AfterEsc,
    Csi,
    Osc,
}

/// Stripped form of the remaining bytes, given the current parsing state.
spec fn strip_from(mode: StripMode, s: Seq<u8>) -> Seq<u8> {
    match mode {
        StripMode::Plain => strip_ansi(s),
        StripMode::AfterEsc => strip_after_esc(s),
        StripMode::Csi => strip_csi(s),
        StripMode::Osc => strip_osc(s),
    }
}

/// Removes all terminal control sequences from `input`, leaving every other
/// byte unchanged and in order.
pub fn strip_ansi_bytes(input: &Vec<u8>) -> (out: Vec<u8>)
    ensures
        out@ == strip_ansi(input@),
{
    let mut out: Vec<u8> = Vec::new();
    let mut mode = StripMode::Plain;
    let mut i: usize = 0;
    proof {
        assert(input@.skip(0) =~= input@);
        assert(Seq::<u8>::empty() + strip_ansi(input@) =~= strip_ansi(input@));
    }
    while i < input.len()
        invariant
            i <= input.len(),
            strip_ansi(input@) == out@ + strip_from(mode, input@.skip(i as int)),
        decreases input.len() - i,
    {
        let b = input[i];
        proof {
            assert(input@.skip(i as int)[0] == b);
            assert(input@.skip(i as int).skip(1) =~= input@.skip(i as int + 1));
        }
        let ghost old_out = out@;
        match mode {
            StripMode::Plain => {
                if b == 0x1b {
                    mode = StripMode::AfterEsc;
                } else {
                    out.push(b);
                    proof {
                        assert(old_out + seq![b] + strip_ansi(input@.skip(i as int + 1)) =~= (
                        old_out + (seq![b] + strip_ansi(input@.skip(i as int + 1)))));
                    }
                }
            },
            StripMode::AfterEsc => {
                if b == 0x5b {
                    mode = StripMode::Csi;
                } else if b == 0x5d {
                    mode = StripMode::Osc;
                } else {
                    mode = StripMode::Plain;
                }
            },
            StripMode::Csi => {
                if 0x20 <= b && b <= 0x3f {
                } else {
                    mode = StripMode::Plain;
                }
            },
            StripMode::Osc => {
                if b == 0x07 {
                    mode = StripMode::Plain;
                } else if b == 0x1b {
                    mode = StripMode::AfterEsc;
                }
            },
        }
        i += 1;
    }
    proof {
        assert(input@.skip(i as int) =~= Seq::<u8>::empty());
        assert(out@ + strip_from(mode, Seq::<u8>::empty()) =~= out@);
    }
    out
}

/// True when the byte is a UTF-8 continuation byte (`10xxxxxx`).
pub open spec fn utf8_cont(b: u8) -> bool {
    0x80 <= b <= 0xbf
}

/// The shape test that the validator runs on the encoding of one scalar at
/// the front of `s`: a leading byte in a valid range, enough continuation
/// bytes, and second-byte restrictions that rule out overlong encodings and
/// surrogate values.
pub open spec fn first_scalar_check(s: Seq<u8>) -> bool {
    s.len() >= 1 && {
        let b0 = s[0];
        ||| b0 <= 0x7f
        ||| (0xc2 <= b0 <= 0xdf && s.len() >= 2 && utf8_cont(s[1]))
        ||| (0xe0 <= b0 <= 0xef && s.len() >= 3 && utf8_cont(s[1]) && utf8_cont(s[2]) && (b0
            == 0xe0 ==> s[1] >= 0xa0) && (b0 == 0xed ==> s[1] <= 0x9f))
        ||| (0xf0 <= b0 <= 0xf4 && s.len() >= 4 && utf8_cont(s[1]) && utf8_cont(s[2]) && utf8_cont(
            s[3],
        ) && (b0 == 0xf0 ==> s[1] >= 0x90) && (b0 == 0xf4 ==> s[1] <= 0x8f))
    }
}

/// The shape test agrees exactly with `valid_first_scalar`, and under it the
/// leading byte determines the scalar's encoded width.
proof fn lemma_first_scalar_check(s: Seq<u8>)
    requires
        s.len() >= 1,
    ensures
        first_scalar_check(s) <==> valid_first_scalar(s),
        valid_first_scalar(s) && s[0] <= 0x7f ==> length_of_first_scalar(s) == 1,
        valid_first_scalar(s) && 0xc2 <= s[0] <= 0xdf ==> length_of_first_scalar(s) == 2,
        valid_first_scalar(s) && 0xe0 <= s[0] <= 0xef ==> length_of_first_scalar(s) == 3,
        valid_first_scalar(s) && 0xf0 <= s[0] <= 0xf4 ==> length_of_first_scalar(s) == 4,
{
    let b0 = s[0];
    if b0 <= 0x7f {
        assert((b0 & 0x7f) == b0) by (bit_vector)
            requires
                b0 <= 0x7f,
        ;
        assert(valid_first_scalar(s));
    } else if b0 <= 0xc1 {
        if 0xc0 <= b0 && s.len() >= 2 && is_continuation_byte(s[1]) {
            let b1 = s[1];
            assert(((((b0 & 0x1f) as u32) << 6) | ((b1 & 0x3f) as u32)) < 0x80) by (bit_vector)
                requires
                    0xc0 <= b0 && b0 <= 0xc1 && 0x80 <= b1 && b1 <= 0xbf,
            ;
            assert(!valid_first_scalar(s));
        } else {
            assert(!valid_leading_and_continuation_bytes_first_codepoint(s));
        }
    } else if b0 <= 0xdf {
        if s.len() >= 2 && is_continuation_byte(s[1]) {
            let b1 = s[1];
            assert(0x80 <= ((((b0 & 0x1f) as u32) << 6) | ((b1 & 0x3f) as u32)) && ((((b0
                & 0x1f) as u32) << 6) | ((b1 & 0x3f) as u32)) < 0xd800) by (bit_vector)
                requires
                    0xc2 <= b0 && b0 <= 0xdf && 0x80 <= b1 && b1 <= 0xbf,
            ;
            assert(valid_first_scalar(s));
        } else {
            assert(!valid_leading_and_continuation_bytes_first_codepoint(s));
        }
    } else if b0 <= 0xef {
        if s.len() >= 3 && is_continuation_byte(s[1]) && is_continuation_byte(s[2]) {
            let b1 = s[1];
            let b2 = s[2];
            if b0 == 0xe0 && b1 <= 0x9f {
                assert(((((b0 & 0x0f) as u32) << 12) | (((b1 & 0x3f) as u32) << 6)) | ((b2
                    & 0x3f) as u32) < 0x800) by (bit_vector)
                    requires
                        b0 == 0xe0 && 0x80 <= b1 && b1 <= 0x9f && 0x80 <= b2 && b2 <= 0xbf,
                ;
                assert(!valid_first_scalar(s));
            } else if b0 == 0xed && b1 >= 0xa0 {
                assert(0xd800 <= ((((b0 & 0x0f) as u32) << 12) | (((b1 & 0x3f) as u32) << 6)) | ((b2
                    & 0x3f) as u32) <= 0xdfff) by (bit_vector)
                    requires
                        b0 == 0xed && 0xa0 <= b1 && b1 <= 0xbf && 0x80 <= b2 && b2 <= 0xbf,
                ;
                assert(!valid_first_scalar(s));
            } else {
                assert(0x800 <= ((((b0 & 0x0f) as u32) << 12) | (((b1 & 0x3f) as u32) << 6)) | ((b2
                    & 0x3f) as u32) && !(0xd800 <= ((((b0 & 0x0f) as u32) << 12) | (((b1
                    & 0x3f) as u32) << 6)) | ((b2 & 0x3f) as u32) <= 0xdfff)) by (bit_vector)
                    requires
                        0xe0 <= b0 && b0 <= 0xef && 0x80 <= b1 && b1 <= 0xbf && 0x80 <= b2 && b2
                            <= 0xbf && (b0 == 0xe0 ==> b1 >= 0xa0) && (b0 == 0xed ==> b1 <= 0x9f),
                ;
                assert(valid_first_scalar(s));
            }
        } else {
            assert(!valid_leading_and_continuation_bytes_first_codepoint(s));
        }
    } else if b0 <= 0xf4 {
        if s.len() >= 4 && is_continuation_byte(s[1]) && is_continuation_byte(s[2])
            && is_continuation_byte(s[3]) {
            let b1 = s[1];
            let b2 = s[2];
            let b3 = s[3];
            if b0 == 0xf0 && b1 <= 0x8f {
                assert((((((b0 & 0x07) as u32) << 18) | (((b1 & 0x3f) as u32) << 12)) | (((b2
                    & 0x3f) as u32) << 6)) | ((b3 & 0x3f) as u32) < 0x10000) by (bit_vector)
                    requires
                        b0 == 0xf0 && 0x80 <= b1 && b1 <= 0x8f && 0x80 <= b2 && b2 <= 0xbf && 0x80
                            <= b3 && b3 <= 0xbf,
                ;
                assert(!valid_first_scalar(s));
            } else if b0 == 0xf4 && b1 >= 0x90 {
                assert((((((b0 & 0x07) as u32) << 18) | (((b1 & 0x3f) as u32) << 12)) | (((b2
                    & 0x3f) as u32) << 6)) | ((b3 & 0x3f) as u32) > 0x10ffff) by (bit_vector)
                    requires
                        b0 == 0xf4 && 0x90 <= b1 && b1 <= 0xbf && 0x80 <= b2 && b2 <= 0xbf && 0x80
                            <= b3 && b3 <= 0xbf,
                ;
                assert(!valid_first_scalar(s));
            } else {
                assert(0x10000 <= (((((b0 & 0x07) as u32) << 18) | (((b1 & 0x3f) as u32) << 12)) | (
                ((b2 & 0x3f) as u32) << 6)) | ((b3 & 0x3f) as u32) <= 0x10ffff) by (bit_vector)
                    requires
                        0xf0 <= b0 && b0 <= 0xf4 && 0x80 <= b1 && b1 <= 0xbf && 0x80 <= b2 && b2
                            <= 0xbf && 0x80 <= b3 && b3 <= 0xbf && (b0 == 0xf0 ==> b1 >= 0x90) && (
                        b0 == 0xf4 ==> b1 <= 0x8f),
                ;
                assert(valid_first_scalar(s));
            }
        } else {
            assert(!valid_leading_and_continuation_bytes_first_codepoint(s));
        }
    } else if b0 <= 0xf7 {
        if s.len() >= 4 && is_continuation_byte(s[1]) && is_continuation_byte(s[2])
            && is_continuation_byte(s[3]) {
            let b1 = s[1];
            let b2 = s[2];
            let b3 = s[3];
            assert((((((b0 & 0x07) as u32) << 18) | (((b1 & 0x3f) as u32) << 12)) | (((b2
                & 0x3f) as u32) << 6)) | ((b3 & 0x3f) as u32) > 0x10ffff) by (bit_vector)
                requires
                    0xf5 <= b0 && b0 <= 0xf7 && 0x80 <= b1 && b1 <= 0xbf && 0x80 <= b2 && b2 <= 0xbf
                        && 0x80 <= b3 && b3 <= 0xbf,
            ;
            assert(!valid_first_scalar(s));
        } else {
            assert(!valid_leading_and_continuation_bytes_first_codepoint(s));
        }
    } else {
        assert(!valid_leading_and_continuation_bytes_first_codepoint(s));
    }
}

/// True when the byte is a UTF-8 continuation byte.
fn cont_byte(b: u8) -> (r: bool)
    ensures
        r == utf8_cont(b),
{
    0x80 <= b && b <= 0xbf
}

/// Strict UTF-8 validation: true exactly when `bytes` is a valid UTF-8
/// encoding of some character sequence.
pub fn validate_utf8(bytes: &Vec<u8>) -> (r: bool)
    ensures
        r == valid_utf8(bytes@),
{
    let n = bytes.len();
    let mut i: usize = 0;
    proof {
        assert(bytes@.subrange(0, 0) =~= Seq::<u8>::empty());
    }
    while i < n
        invariant
            i <= n,
            n == bytes.len(),
            partial_valid_utf8(bytes@, i as int),
        decreases n - i,
    {
        let ghost suffix = bytes@.skip(i as int);
        let b0 = bytes[i];
        proof {
            assert(suffix.len() == n - i);
            assert(suffix[0] == b0);
            assert(forall|k: int|
                0 <= k < suffix.len() ==> suffix[k] == bytes@[i as int + k]);
            lemma_first_scalar_check(suffix);
        }
        let ok: bool;
        let w: usize;
        if b0 <= 0x7f {
            ok = true;
            w = 1;
        } else if 0xc2 <= b0 && b0 <= 0xdf {
            ok = i + 1 < n && cont_byte(bytes[i + 1]);
            w = 2;
        } else if 0xe0 <= b0 && b0 <= 0xef {
            if n - i >= 3 {
                let b1 = bytes[i + 1];
                let b2 = bytes[i + 2];
                ok = cont_byte(b1) && cont_byte(b2) && (b0 != 0xe0 || b1 >= 0xa0) && (b0 != 0xed
                    || b1 <= 0x9f);
            } else {
                ok = false;
            }
            w = 3;
        } else if 0xf0 <= b0 && b0 <= 0xf4 {
            if n - i >= 4 {
                let b1 = bytes[i + 1];
                let b2 = bytes[i + 2];
                let b3 = bytes[i + 3];
                ok = cont_byte(b1) && cont_byte(b2) && cont_byte(b3) && (b0 != 0xf0 || b1 >= 0x90)
                    && (b0 != 0xf4 || b1 <= 0x8f);
            } else {
                ok = false;
            }
            w = 4;
        } else {
            ok = false;
            w = 1;
        }
        if !ok {
            proof {
                assert(!first_scalar_check(suffix));
                assert(!valid_utf8(suffix));
                partial_valid_partial_invalid_utf8(bytes@, i as int);
            }
            return false;
        }
        proof {
            assert(first_scalar_check(suffix));
            assert(length_of_first_scalar(suffix) == w);
            partial_valid_utf8_extend(bytes@, i as int);
        }
        i += w;
    }
    proof {
        assert(bytes@.subrange(0, n as int) =~= bytes@);
    }
    true
}

/// Outcome of a payload that was not valid text once stripped: carries the
/// byte length of the rejected (stripped) input.
#[derive(Clone, Copy, Debug, PartialEq, Eq, Structural)]
pub struct DecodeFailure {
    pub length: usize,
}

/// Sanitizes one raw payload: strips terminal control sequences, then
/// validates the remainder as strict UTF-8. Returns the stripped bytes when
/// they are valid text, and otherwise a failure carrying the stripped byte
/// length; no partial or replacement decoding is ever produced.
pub fn sanitize(input: &Vec<u8>) -> (r: Result<Vec<u8>, DecodeFailure>)
    ensures
        valid_utf8(strip_ansi(input@)) ==> (r matches Ok(v) && v@ == strip_ansi(input@)),
        !valid_utf8(strip_ansi(input@)) ==> (r matches Err(f) && f.length == strip_ansi(
            input@,
        ).len()),
{
    let stripped = strip_ansi_bytes(input);
    if validate_utf8(&stripped) {
        Ok(stripped)
    } else {
        let n = stripped.len();
        Err(DecodeFailure { length: n })
    }
}

/// True when no byte of `s` is the ESC byte that opens an escape sequence.
pub open spec fn escape_free(s: Seq<u8>) -> bool {
    forall|i: int| 0 <= i < s.len() ==> s[i] != 0x1b
}

/// True when every byte of `s` is printable ASCII or ordinary whitespace
/// (tab, line feed, carriage return): plain text with no escape codes.
pub open spec fn printable_text(s: Seq<u8>) -> bool {
    forall|i: int|
        0 <= i < s.len() ==> (0x20 <= s[i] <= 0x7e || s[i] == 0x09 || s[i] == 0x0a || s[i] == 0x0d)
}

/// True when `c` is one complete CSI control sequence: `ESC [`, parameter
/// and intermediate bytes, and one final byte.
pub open spec fn csi_sequence(c: Seq<u8>) -> bool {
    &&& c.len() >= 3
    &&& c[0] == 0x1b
    &&& c[1] == 0x5b
    &&& forall|i: int| 2 <= i < c.len() - 1 ==> 0x20 <= #[trigger] c[i] <= 0x3f
    &&& 0x40 <= c[c.len() - 1] <= 0x7e
}

/// A prefix with no ESC byte passes through the stripper unchanged, whatever
/// follows it.
proof fn lemma_strip_escape_free_prefix(a: Seq<u8>, t: Seq<u8>)
    requires
        escape_free(a),
    ensures
        strip_ansi(a + t) == a + strip_ansi(t),
    decreases a.len(),
{
    if a.len() == 0 {
        assert(a + t =~= t);
        assert(a + strip_ansi(t) =~= strip_ansi(t));
    } else {
        assert((a + t)[0] == a[0]);
        assert((a + t).skip(1) =~= a.skip(1) + t);
        lemma_strip_escape_free_prefix(a.skip(1), t);
        assert(strip_ansi(a + t) == seq![a[0]] + (a.skip(1) + strip_ansi(t)));
        assert(seq![a[0]] + (a.skip(1) + strip_ansi(t)) =~= a + strip_ansi(t));
    }
}

/// The body of a CSI sequence (parameter bytes then a final byte) is
/// consumed entirely, and stripping resumes in the plain state.
proof fn lemma_strip_csi_body(m: Seq<u8>, t: Seq<u8>)
    requires
        m.len() >= 1,
        forall|i: int| 0 <= i < m.len() - 1 ==> 0x20 <= #[trigger] m[i] <= 0x3f,
        !(0x20 <= m[m.len() - 1] <= 0x3f),
    ensures
        strip_csi(m + t) == strip_ansi(t),
    decreases m.len(),
{
    assert((m + t)[0] == m[0]);
    assert((m + t).skip(1) =~= m.skip(1) + t);
    if m.len() == 1 {
        assert(m.skip(1) + t =~= t);
    } else {
        assert(0x20 <= m[0] <= 0x3f);
        lemma_strip_csi_body(m.skip(1), t);
    }
}

/// One complete CSI sequence is removed entirely by the stripper.
proof fn lemma_strip_csi_sequence(c: Seq<u8>, t: Seq<u8>)
    requires
        csi_sequence(c),
    ensures
        strip_ansi(c + t) == strip_ansi(t),
{
    let m = c.skip(2);
    assert((c + t)[0] == 0x1b);
    assert((c + t).skip(1)[0] == c[1]);
    assert(strip_ansi(c + t) == strip_after_esc((c + t).skip(1)));
    assert(strip_after_esc((c + t).skip(1)) == strip_csi((c + t).skip(1).skip(1)));
    assert((c + t).skip(1).skip(1) =~= m + t);
    assert(m[m.len() - 1] == c[c.len() - 1]);
    assert forall|i: int| 0 <= i < m.len() - 1 implies 0x20 <= #[trigger] m[i] <= 0x3f by {
        assert(m[i] == c[i + 2]);
    }
    lemma_strip_csi_body(m, t);
}

/// True when `c` is one complete OSC control sequence: `ESC ]`, a body
/// free of BEL and ESC, and the BEL terminator.
pub open spec fn osc_sequence(c: Seq<u8>) -> bool {
    &&& c.len() >= 3
    &&& c[0] == 0x1b
    &&& c[1] == 0x5d
    &&& forall|i: int| 2 <= i < c.len() - 1 ==> ((#[trigger] c[i]) != 0x07 && c[i] != 0x1b)
    &&& c[c.len() - 1] == 0x07
}

/// The body of an OSC sequence up to and including its BEL terminator is
/// consumed entirely, and stripping resumes in the plain state.
proof fn lemma_strip_osc_body(m: Seq<u8>, t: Seq<u8>)
    requires
        m.len() >= 1,
        forall|i: int| 0 <= i < m.len() - 1 ==> ((#[trigger] m[i]) != 0x07 && m[i] != 0x1b),
        m[m.len() - 1] == 0x07,
    ensures
        strip_osc(m + t) == strip_ansi(t),
    decreases m.len(),
{
    assert((m + t)[0] == m[0]);
    assert((m + t).skip(1) =~= m.skip(1) + t);
    if m.len() == 1 {
        assert(m.skip(1) + t =~= t);
    } else {
        assert(m[0] != 0x07 && m[0] != 0x1b);
        lemma_strip_osc_body(m.skip(1), t);
    }
}

/// One complete OSC sequence is removed entirely by the stripper.
proof fn lemma_strip_osc_sequence(c: Seq<u8>, t: Seq<u8>)
    requires
        osc_sequence(c),
    ensures
        strip_ansi(c + t) == strip_ansi(t),
{
    let m = c.skip(2);
    assert((c + t)[0] == 0x1b);
    assert((c + t).skip(1)[0] == c[1]);
    assert(strip_ansi(c + t) == strip_after_esc((c + t).skip(1)));
    assert(strip_after_esc((c + t).skip(1)) == strip_osc((c + t).skip(1).skip(1)));
    assert((c + t).skip(1).skip(1) =~= m + t);
    assert(m[m.len() - 1] == c[c.len() - 1]);
    assert forall|i: int| 0 <= i < m.len() - 1 implies ((#[trigger] m[i]) != 0x07 && m[i]
        != 0x1b) by {
        assert(m[i] == c[i + 2]);
    }
    lemma_strip_osc_body(m, t);
}

/// Plain printable text sanitizes to itself: the stripper leaves it
/// untouched and it is valid UTF-8, so `sanitize` returns it unchanged.
pub proof fn lemma_sanitize_plain_text(s: Seq<u8>)
    requires
        printable_text(s),
    ensures
        strip_ansi(s) == s,
        valid_utf8(s),
{
    assert(escape_free(s));
    lemma_strip_escape_free_prefix(s, Seq::<u8>::empty());
    assert(s + Seq::<u8>::empty() =~= s);
    assert(strip_ansi(Seq::<u8>::empty()) =~= Seq::<u8>::empty());
    assert(s + strip_ansi(Seq::<u8>::empty()) =~= s);
    assert(s.subrange(0, 0) =~= Seq::<u8>::empty());
    assert(forall|i: int| 0 <= i < s.len() ==> is_leading_byte_width_1(#[trigger] s[i]));
    partial_valid_utf8_extend_ascii_block(s, 0, s.len() as int);
    assert(s.subrange(0, s.len() as int) =~= s);
}

/// Printable text wrapped in one CSI control sequence sanitizes to the text
/// with the sequence removed and nothing else altered.
pub proof fn lemma_sanitize_wrapped_text(a: Seq<u8>, c: Seq<u8>, b: Seq<u8>)
    requires
        printable_text(a),
        csi_sequence(c),
        printable_text(b),
    ensures
        strip_ansi(a + c + b) == a + b,
        valid_utf8(a + b),
{
    assert(escape_free(a));
    assert(a + c + b =~= a + (c + b));
    lemma_strip_escape_free_prefix(a, c + b);
    lemma_strip_csi_sequence(c, b);
    lemma_sanitize_plain_text(b);
    assert(strip_ansi(a + c + b) == a + strip_ansi(b));
    assert(forall|i: int|
        0 <= i < (a + b).len() ==> (0x20 <= #[trigger] (a + b)[i] <= 0x7e || (a + b)[i] == 0x09 || (
        a + b)[i] == 0x0a || (a + b)[i] == 0x0d));
    lemma_sanitize_plain_text(a + b);
}

/// Printable text wrapped in one OSC control sequence sanitizes to the
/// text with the sequence removed and nothing else altered.
pub proof fn lemma_sanitize_osc_wrapped_text(a: Seq<u8>, c: Seq<u8>, b: Seq<u8>)
    requires
        printable_text(a),
        osc_sequence(c),
        printable_text(b),
    ensures
        strip_ansi(a + c + b) == a + b,
        valid_utf8(a + b),
{
    assert(escape_free(a));
    assert(a + c + b =~= a + (c + b));
    lemma_strip_escape_free_prefix(a, c + b);
    lemma_strip_osc_sequence(c, b);
    lemma_sanitize_plain_text(b);
    assert(strip_ansi(a + c + b) == a + strip_ansi(b));
    assert(forall|i: int|
        0 <= i < (a + b).len() ==> (0x20 <= #[trigger] (a + b)[i] <= 0x7e || (a + b)[i] == 0x09 || (
        a + b)[i] == 0x0a || (a + b)[i] == 0x0d));
    lemma_sanitize_plain_text(a + b);
}

} // verus!
