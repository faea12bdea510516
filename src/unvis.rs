//! Decoder for the OpenBSD `vis(3)` quoting that tmux applies to names and pane output.
use vstd::prelude::*;
use vstd::string::StringSliceAdditionalSpecFns;
use vstd::utf8::{
    decode_utf8, encode_utf8, encode_utf8_decode_utf8, encode_utf8_valid_utf8, valid_utf8,
};

verus! {

/// The byte that opens every escape.
pub const BACKSLASH: u8 = 92;

/// The byte `'0'`; octal digits run from it to `'7'`.
pub const DIGIT_ZERO: u8 = 48;

/// Why a quoted string could not be decoded.
#[derive(Debug, Clone, Copy, PartialEq, Eq, Structural)]
pub enum UnvisError {
    /// A backslash escape that `vis` never produces; holds the offending byte.
    BadEscape(u8),
    /// The decoded bytes are not valid UTF-8 where text was expected.
    NotUtf8,
}

/// State of the byte-at-a-time decoder.
#[derive(Debug, Clone, Copy, PartialEq, Eq, Structural)]
pub enum UnvisState {
    Ground,
    Start,
    Meta,
    Meta1,
    Ctrl(u8),
    Octal2(u8),
    Octal3(u8),
}

pub open spec fn is_octal(b: u8) -> bool {
    DIGIT_ZERO <= b <= DIGIT_ZERO + 7
}

/// Appends one more octal digit to an accumulated value, keeping eight bits.
pub open spec fn octal_push(prior: u8, b: u8) -> u8 {
    ((prior % 32) * 8 + (b - DIGIT_ZERO)) as u8
}

/// A plain byte in the ground state: a backslash opens an escape, anything else passes.
pub open spec fn ground_step(b: u8) -> (UnvisState, Seq<u8>) {
    if b == BACKSLASH {
        (UnvisState::Start, Seq::empty())
    } else {
        (UnvisState::Ground, seq![b])
    }
}

/// The byte named by a one-letter escape such as `\n` or `\E`.
pub open spec fn letter_escape(b: u8) -> Option<u8> {
    if b == 110 {  // 'n': line feed
        Some(10u8)
    } else if b == 114 {  // 'r': carriage return
        Some(13u8)
    } else if b == 98 {  // 'b': backspace
        Some(8u8)
    } else if b == 97 {  // 'a': bell
        Some(7u8)
    } else if b == 118 {  // 'v': vertical tab
        Some(11u8)
    } else if b == 116 {  // 't': tab
        Some(9u8)
    } else if b == 102 {  // 'f': form feed
        Some(12u8)
    } else if b == 115 {  // 's': space
        Some(32u8)
    } else if b == 69 {  // 'E': escape
        Some(27u8)
    } else {
        None
    }
}

/// The byte that `\^c` stands for (`meta` is 0), or `\M^c` (`meta` is 0o200).
pub open spec fn ctrl_of(c: u8, meta: u8) -> u8 {
    if c == 63 {  // '?'
        meta | 127u8
    } else {
        (c & 31u8) | meta
    }
}

/// One input byte: the next state and the bytes emitted, or the offending byte.
/// A byte that ends an octal sequence early is handled again in the ground state.
pub open spec fn unvis_step(st: UnvisState, b: u8) -> Result<(UnvisState, Seq<u8>), u8> {
    match st {
        UnvisState::Ground => Ok(ground_step(b)),
        UnvisState::Start => {
            if b == BACKSLASH {
                Ok((UnvisState::Ground, seq![BACKSLASH]))
            } else if is_octal(b) {
                Ok((UnvisState::Octal2((b - DIGIT_ZERO) as u8), Seq::empty()))
            } else if b == 77 {  // 'M'
                Ok((UnvisState::Meta, Seq::empty()))
            } else if b == 94 {  // '^'
                Ok((UnvisState::Ctrl(0), Seq::empty()))
            } else if b == 10 || b == 36 {  // a hidden newline, or '$'
                Ok((UnvisState::Ground, Seq::empty()))
            } else {
                match letter_escape(b) {
                    Some(c) => Ok((UnvisState::Ground, seq![c])),
                    None => Err(b),
                }
            }
        },
        UnvisState::Meta => {
            if b == 45 {  // '-'
                Ok((UnvisState::Meta1, Seq::empty()))
            } else if b == 94 {
                Ok((UnvisState::Ctrl(128), Seq::empty()))
            } else {
                Err(b)
            }
        },
        UnvisState::Meta1 => Ok((UnvisState::Ground, seq![b | 128u8])),
        UnvisState::Ctrl(c) => {
            Ok((UnvisState::Ground, seq![ctrl_of(b, c)]))
        },
        UnvisState::Octal2(prior) => {
            if is_octal(b) {
                Ok((UnvisState::Octal3(octal_push(prior, b)), Seq::empty()))
            } else {
                Ok((ground_step(b).0, seq![prior] + ground_step(b).1))
            }
        },
        UnvisState::Octal3(prior) => {
            if is_octal(b) {
                Ok((UnvisState::Ground, seq![octal_push(prior, b)]))
            } else {
                Ok((ground_step(b).0, seq![prior] + ground_step(b).1))
            }
        },
    }
}

/// Runs the decoder over `s` from the ground state. An escape left open at the
/// end of the input produces nothing.
pub open spec fn unvis_run(s: Seq<u8>) -> Result<(UnvisState, Seq<u8>), u8>
    decreases s.len(),
{
    if s.len() == 0 {
        Ok((UnvisState::Ground, Seq::empty()))
    } else {
        match unvis_run(s.drop_last()) {
            Ok((st, out)) => match unvis_step(st, s.last()) {
                Ok((st2, more)) => Ok((st2, out + more)),
                Err(b) => Err(b),
            },
            Err(b) => Err(b),
        }
    }
}

/// The bytes that the quoted string `s` stands for, or the byte of its first bad escape.
pub open spec fn unvis_decode(s: Seq<u8>) -> Result<Seq<u8>, u8> {
    match unvis_run(s) {
        Ok((_, out)) => Ok(out),
        Err(b) => Err(b),
    }
}

/// The text that the quoted string `s` stands for, where it decodes to valid UTF-8.
pub open spec fn unvis_text(s: Seq<u8>) -> Result<Seq<char>, UnvisError> {
    match unvis_decode(s) {
        Ok(out) => if valid_utf8(out) {
            Ok(decode_utf8(out))
        } else {
            Err(UnvisError::NotUtf8)
        },
        Err(b) => Err(UnvisError::BadEscape(b)),
    }
}

/// Relies on String::from_utf8: it accepts exactly the valid UTF-8 sequences and decodes them.
#[verifier::external_body]
pub(crate) fn string_from_utf8(v: Vec<u8>) -> (r: Option<String>)
    ensures
        match r {
            Some(t) => valid_utf8(v@) && t@ == decode_utf8(v@),
            None => !valid_utf8(v@),
        },
{
    String::from_utf8(v).ok()
}

fn octal_digit(b: u8) -> (r: bool)
    ensures
        r == is_octal(b),
{
    DIGIT_ZERO <= b && b <= DIGIT_ZERO + 7
}

fn letter_escape_exec(b: u8) -> (r: Option<u8>)
    ensures
        r == letter_escape(b),
{
    match b {
        110 => Some(10),
        114 => Some(13),
        98 => Some(8),
        97 => Some(7),
        118 => Some(11),
        116 => Some(9),
        102 => Some(12),
        115 => Some(32),
        69 => Some(27),
        _ => None,
    }
}

fn ground_exec(b: u8, out: &mut Vec<u8>) -> (st: UnvisState)
    ensures
        st == ground_step(b).0,
        final(out)@ == old(out)@ + ground_step(b).1,
{
    if b == BACKSLASH {
        assert(old(out)@ + Seq::<u8>::empty() =~= old(out)@);
        UnvisState::Start
    } else {
        out.push(b);
        UnvisState::Ground
    }
}

fn step_exec(st: UnvisState, b: u8, out: &mut Vec<u8>) -> (r: Result<UnvisState, u8>)
    ensures
        match unvis_step(st, b) {
            Ok((st2, more)) => r == Ok::<UnvisState, u8>(st2) && final(out)@ == old(out)@ + more,
            Err(e) => r == Err::<UnvisState, u8>(e),
        },
{
    let ghost empty = Seq::<u8>::empty();
    assert(old(out)@ + empty =~= old(out)@);
    match st {
        UnvisState::Ground => Ok(ground_exec(b, out)),
        UnvisState::Start => {
            if b == BACKSLASH {
                out.push(BACKSLASH);
                Ok(UnvisState::Ground)
            } else if octal_digit(b) {
                Ok(UnvisState::Octal2(b - DIGIT_ZERO))
            } else if b == 77 {
                Ok(UnvisState::Meta)
            } else if b == 94 {
                Ok(UnvisState::Ctrl(0))
            } else if b == 10 || b == 36 {
                Ok(UnvisState::Ground)
            } else {
                let c = match letter_escape_exec(b) {
                    Some(c) => c,
                    None => return Err(b),
                };
                out.push(c);
                Ok(UnvisState::Ground)
            }
        },
        UnvisState::Meta => {
            if b == 45 {
                Ok(UnvisState::Meta1)
            } else if b == 94 {
                Ok(UnvisState::Ctrl(128))
            } else {
                Err(b)
            }
        },
        UnvisState::Meta1 => {
            out.push(b | 128u8);
            Ok(UnvisState::Ground)
        },
        UnvisState::Ctrl(c) => {
            if b == 63 {
                out.push(c | 127u8);
            } else {
                out.push((b & 31u8) | c);
            }
            Ok(UnvisState::Ground)
        },
        UnvisState::Octal2(prior) => {
            if octal_digit(b) {
                Ok(UnvisState::Octal3((prior % 32) * 8 + (b - DIGIT_ZERO)))
            } else {
                out.push(prior);
                let g = ground_exec(b, out);
                assert(out@ =~= old(out)@ + (seq![prior] + ground_step(b).1));
                Ok(g)
            }
        },
        UnvisState::Octal3(prior) => {
            if octal_digit(b) {
                out.push((prior % 32) * 8 + (b - DIGIT_ZERO));
                Ok(UnvisState::Ground)
            } else {
                out.push(prior);
                let g = ground_exec(b, out);
                assert(out@ =~= old(out)@ + (seq![prior] + ground_step(b).1));
                Ok(g)
            }
        },
    }
}

/// Decodes a `vis`-quoted byte string into the bytes it stands for.
pub fn unvis_bytes(s: &[u8]) -> (r: Result<Vec<u8>, UnvisError>)
    ensures
        match unvis_decode(s@) {
            Ok(out) => r matches Ok(v) && v@ == out,
            Err(b) => r == Err::<Vec<u8>, UnvisError>(UnvisError::BadEscape(b)),
        },
{
    let mut st = UnvisState::Ground;
    let mut out: Vec<u8> = Vec::new();
    let mut i: usize = 0;
    while i < s.len()
        invariant
            i <= s@.len(),
            unvis_run(s@.subrange(0, i as int)) == Ok::<(UnvisState, Seq<u8>), u8>((st, out@)),
        decreases s@.len() - i,
    {
        let b = s[i];
        assert(s@.subrange(0, i + 1).drop_last() =~= s@.subrange(0, i as int));
        match step_exec(st, b, &mut out) {
            Ok(next) => {
                st = next;
            },
            Err(e) => {
                assert(unvis_run(s@.subrange(0, i + 1)) == Err::<(UnvisState, Seq<u8>), u8>(e));
                proof {
                    lemma_run_error_sticks(s@, i + 1);
                }
                return Err(UnvisError::BadEscape(e));
            },
        }
        i += 1;
    }
    assert(s@.subrange(0, s@.len() as int) =~= s@);
    Ok(out)
}

/// Once the decoder has failed on a prefix it fails on the whole input with the same byte.
proof fn lemma_run_error_sticks(s: Seq<u8>, k: int)
    requires
        0 <= k <= s.len(),
        unvis_run(s.subrange(0, k)) is Err,
    ensures
        unvis_run(s) == unvis_run(s.subrange(0, k)),
    decreases s.len() - k,
{
    if k == s.len() {
        assert(s.subrange(0, k) =~= s);
    } else {
        assert(s.subrange(0, k + 1).drop_last() =~= s.subrange(0, k));
        lemma_run_error_sticks(s, k + 1);
    }
}

/// Decodes a `vis`-quoted string that must stand for UTF-8 text.
pub fn unvis(s: &str) -> (r: Result<String, UnvisError>)
    ensures
        match unvis_text(s.spec_bytes()) {
            Ok(t) => r matches Ok(v) && v@ == t,
            Err(e) => r == Err::<String, UnvisError>(e),
        },
{
    unvis_to_string(s.as_bytes())
}

/// Decodes a `vis`-quoted byte string that must stand for UTF-8 text.
pub(crate) fn unvis_to_string(s: &[u8]) -> (r: Result<String, UnvisError>)
    ensures
        match unvis_text(s@) {
            Ok(t) => r matches Ok(v) && v@ == t,
            Err(e) => r == Err::<String, UnvisError>(e),
        },
{
    let bytes = unvis_bytes(s)?;
    match string_from_utf8(bytes) {
        Some(t) => Ok(t),
        None => Err(UnvisError::NotUtf8),
    }
}


/// How tmux's `vis` quotes one byte: a backslash is doubled, printable ASCII stands
/// as it is, and any other byte becomes a backslash and three octal digits.
pub open spec fn vis_byte(b: u8) -> Seq<u8> {
    if b == BACKSLASH {
        seq![BACKSLASH, BACKSLASH]
    } else if 32 <= b <= 126 {
        seq![b]
    } else {
        seq![
            BACKSLASH,
            (DIGIT_ZERO + b / 64) as u8,
            (DIGIT_ZERO + (b / 8) % 8) as u8,
            (DIGIT_ZERO + b % 8) as u8,
        ]
    }
}

/// The `vis` quoting of a byte string, byte by byte.
pub open spec fn vis(s: Seq<u8>) -> Seq<u8>
    decreases s.len(),
{
    if s.len() == 0 {
        Seq::empty()
    } else {
        vis(s.drop_last()) + vis_byte(s.last())
    }
}

/// Running the decoder over one more byte.
proof fn lemma_run_push(x: Seq<u8>, c: u8)
    ensures
        unvis_run(x.push(c)) == match unvis_run(x) {
            Ok((st, out)) => match unvis_step(st, c) {
                Ok((st2, more)) => Ok((st2, out + more)),
                Err(b) => Err(b),
            },
            Err(b) => Err(b),
        },
{
    assert(x.push(c).drop_last() =~= x);
    assert(x.push(c).last() == c);
}

/// The decoder, back in its ground state, turns the quoting of `b` back into `b`.
proof fn lemma_unvis_vis_byte(x: Seq<u8>, out: Seq<u8>, b: u8)
    requires
        unvis_run(x) == Ok::<(UnvisState, Seq<u8>), u8>((UnvisState::Ground, out)),
    ensures
        unvis_run(x + vis_byte(b)) == Ok::<(UnvisState, Seq<u8>), u8>(
            (UnvisState::Ground, out.push(b)),
        ),
{
    let y = vis_byte(b);
    if b == BACKSLASH {
        lemma_run_push(x, BACKSLASH);
        lemma_run_push(x.push(BACKSLASH), BACKSLASH);
        assert(x + y =~= x.push(BACKSLASH).push(BACKSLASH));
        assert(out + Seq::<u8>::empty() + seq![BACKSLASH] =~= out.push(b));
    } else if 32 <= b <= 126 {
        lemma_run_push(x, b);
        assert(x + y =~= x.push(b));
        assert(out + seq![b] =~= out.push(b));
    } else {
        let d1 = (b / 64) as u8;
        let d2 = ((b / 8) % 8) as u8;
        let d3 = (b % 8) as u8;
        assert((d1 % 32) * 8 + d2 < 32) by (nonlinear_arith)
            requires
                d1 == b / 64,
                d2 == (b / 8) % 8,
                b < 256,
        ;
        assert((((d1 % 32) * 8 + d2) % 32) * 8 + d3 == b) by (nonlinear_arith)
            requires
                d1 == b / 64,
                d2 == (b / 8) % 8,
                d3 == b % 8,
                b < 256,
        ;
        let x1 = x.push(BACKSLASH);
        let x2 = x1.push((DIGIT_ZERO + d1) as u8);
        let x3 = x2.push((DIGIT_ZERO + d2) as u8);
        let x4 = x3.push((DIGIT_ZERO + d3) as u8);
        lemma_run_push(x, BACKSLASH);
        lemma_run_push(x1, (DIGIT_ZERO + d1) as u8);
        lemma_run_push(x2, (DIGIT_ZERO + d2) as u8);
        lemma_run_push(x3, (DIGIT_ZERO + d3) as u8);
        assert(x + y =~= x4);
        assert(out + Seq::<u8>::empty() + Seq::<u8>::empty() + Seq::<u8>::empty() + seq![b]
            =~= out.push(b));
    }
}

/// Decoding undoes tmux's quoting: `unvis(vis(s)) == s` for every byte string.
pub proof fn lemma_unvis_inverts_vis(s: Seq<u8>)
    ensures
        unvis_run(vis(s)) == Ok::<(UnvisState, Seq<u8>), u8>((UnvisState::Ground, s)),
        unvis_decode(vis(s)) == Ok::<Seq<u8>, u8>(s),
    decreases s.len(),
{
    if s.len() == 0 {
        assert(vis(s) =~= Seq::<u8>::empty());
        assert(s =~= Seq::<u8>::empty());
    } else {
        lemma_unvis_inverts_vis(s.drop_last());
        lemma_unvis_vis_byte(vis(s.drop_last()), s.drop_last(), s.last());
        assert(s.drop_last().push(s.last()) =~= s);
    }
}

/// A payload without backslashes decodes to exactly the bytes that were sent.
pub proof fn lemma_plain_payload_unchanged(s: Seq<u8>)
    requires
        forall|i: int| 0 <= i < s.len() ==> s[i] != BACKSLASH,
    ensures
        unvis_run(s) == Ok::<(UnvisState, Seq<u8>), u8>((UnvisState::Ground, s)),
        unvis_decode(s) == Ok::<Seq<u8>, u8>(s),
    decreases s.len(),
{
    if s.len() == 0 {
        assert(s =~= Seq::<u8>::empty());
    } else {
        lemma_plain_payload_unchanged(s.drop_last());
        lemma_run_push(s.drop_last(), s.last());
        assert(s.drop_last().push(s.last()) =~= s);
        assert(s.drop_last() + seq![s.last()] =~= s);
    }
}


/// `enc` is one of the ways tmux's `vis` may write the byte `b`: the byte itself
/// (any but a backslash), a doubled backslash or three octal digits, a C-style
/// letter, `\M-c`, `\^c` or `\M^c`.
pub open spec fn is_vis_of(enc: Seq<u8>, b: u8) -> bool {
    ||| b != BACKSLASH && enc == seq![b]
    ||| enc == vis_byte(b)
    ||| enc.len() == 2 && enc[0] == BACKSLASH && letter_escape(enc[1]) == Some(b)
    ||| enc.len() == 4 && enc[0] == BACKSLASH && enc[1] == 77 && enc[2] == 45 && b == enc[3]
        | 128u8
    ||| enc.len() == 3 && enc[0] == BACKSLASH && enc[1] == 94 && b == ctrl_of(enc[2], 0)
    ||| enc.len() == 4 && enc[0] == BACKSLASH && enc[1] == 77 && enc[2] == 94 && b == ctrl_of(
        enc[3],
        128,
    )
}

/// Encoded bytes written one after another.
pub open spec fn join_chunks(cs: Seq<Seq<u8>>) -> Seq<u8>
    decreases cs.len(),
{
    if cs.len() == 0 {
        Seq::empty()
    } else {
        join_chunks(cs.drop_last()) + cs.last()
    }
}

/// The decoder, back in its ground state, turns any `vis` form of `b` back into `b`.
proof fn lemma_unvis_vis_form(x: Seq<u8>, out: Seq<u8>, enc: Seq<u8>, b: u8)
    requires
        unvis_run(x) == Ok::<(UnvisState, Seq<u8>), u8>((UnvisState::Ground, out)),
        is_vis_of(enc, b),
    ensures
        unvis_run(x + enc) == Ok::<(UnvisState, Seq<u8>), u8>(
            (UnvisState::Ground, out.push(b)),
        ),
{
    let e = Seq::<u8>::empty();
    if enc == vis_byte(b) {
        lemma_unvis_vis_byte(x, out, b);
    } else if b != BACKSLASH && enc == seq![b] {
        lemma_run_push(x, b);
        assert(x + enc =~= x.push(b));
        assert(out + seq![b] =~= out.push(b));
    } else if enc.len() == 2 {
        let x1 = x.push(enc[0]);
        lemma_run_push(x, enc[0]);
        lemma_run_push(x1, enc[1]);
        assert(x + enc =~= x1.push(enc[1]));
        assert(out + e + seq![b] =~= out.push(b));
    } else if enc.len() == 3 {
        let x1 = x.push(enc[0]);
        let x2 = x1.push(enc[1]);
        lemma_run_push(x, enc[0]);
        lemma_run_push(x1, enc[1]);
        lemma_run_push(x2, enc[2]);
        assert(x + enc =~= x2.push(enc[2]));
        assert(out + e + e + seq![b] =~= out.push(b));
    } else {
        let x1 = x.push(enc[0]);
        let x2 = x1.push(enc[1]);
        let x3 = x2.push(enc[2]);
        lemma_run_push(x, enc[0]);
        lemma_run_push(x1, enc[1]);
        lemma_run_push(x2, enc[2]);
        lemma_run_push(x3, enc[3]);
        assert(x + enc =~= x3.push(enc[3]));
        assert(out + e + e + e + seq![b] =~= out.push(b));
    }
}

/// Decoding undoes every `vis` encoding tmux may choose, byte by byte: whichever
/// form is used for each byte of `s`, the decoder gives back exactly `s`.
pub proof fn lemma_unvis_inverts_any_vis(s: Seq<u8>, cs: Seq<Seq<u8>>)
    requires
        cs.len() == s.len(),
        forall|i: int| 0 <= i < s.len() ==> is_vis_of(#[trigger] cs[i], s[i]),
    ensures
        unvis_run(join_chunks(cs)) == Ok::<(UnvisState, Seq<u8>), u8>((UnvisState::Ground, s)),
        unvis_decode(join_chunks(cs)) == Ok::<Seq<u8>, u8>(s),
    decreases s.len(),
{
    if s.len() == 0 {
        assert(join_chunks(cs) =~= Seq::<u8>::empty());
        assert(s =~= Seq::<u8>::empty());
    } else {
        let n = s.len() - 1;
        assert forall|i: int| 0 <= i < s.drop_last().len() implies is_vis_of(
            #[trigger] cs.drop_last()[i],
            s.drop_last()[i],
        ) by {
            assert(cs.drop_last()[i] == cs[i]);
            assert(is_vis_of(cs[i], s[i]));
        }
        lemma_unvis_inverts_any_vis(s.drop_last(), cs.drop_last());
        assert(is_vis_of(cs[n], s[n]));
        lemma_unvis_vis_form(join_chunks(cs.drop_last()), s.drop_last(), cs.last(), s.last());
        assert(s.drop_last().push(s.last()) =~= s);
    }
}


/// Decoding text undoes tmux's quoting: a string whose UTF-8 bytes are written in
/// any `vis` forms decodes back to that same string.
pub proof fn lemma_unvis_text_inverts_vis(text: Seq<char>, cs: Seq<Seq<u8>>)
    requires
        cs.len() == encode_utf8(text).len(),
        forall|i: int|
            0 <= i < cs.len() ==> is_vis_of(#[trigger] cs[i], encode_utf8(text)[i]),
    ensures
        unvis_text(join_chunks(cs)) == Ok::<Seq<char>, UnvisError>(text),
{
    lemma_unvis_inverts_any_vis(encode_utf8(text), cs);
    encode_utf8_valid_utf8(text);
    encode_utf8_decode_utf8(text);
}

} // verus!
