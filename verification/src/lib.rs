//! Unescaping of backslash escape sequences in command-line style strings.
//!
//! The library turns a human-authored string containing escape sequences
//! (`\n`, `\r`, `\t`, and `\xZZ` hexadecimal byte escapes) into the raw byte
//! sequence it denotes.  Unrecognized or truncated escapes are reproduced
//! verbatim in their original textual form, so the conversion is total:
//! every input string yields a defined byte sequence.

use vstd::prelude::*;
use vstd::string::StrSliceExecFns;
use vstd::utf8::char_is_scalar;
use vstd::utf8::encode_scalar;
use vstd::utf8::encode_utf8;

verus! {

/// True when `c` is an ASCII hexadecimal digit: `0-9`, `A-F` or `a-f`.
pub open spec fn is_hex_digit(c: char) -> bool {
    let v = c as u32;
    (48 <= v && v <= 57) || (65 <= v && v <= 70) || (97 <= v && v <= 102)
}

/// The numeric value (0 to 15) that the hexadecimal digit `c` denotes.
/// Upper-case and lower-case letters denote the same value.
pub open spec fn hex_digit_value(c: char) -> u8
    recommends
        is_hex_digit(c),
{
    let v = c as u32;
    if 48 <= v && v <= 57 {
        (v - 48) as u8
    } else if 65 <= v && v <= 70 {
        (v - 55) as u8
    } else {
        (v - 87) as u8
    }
}

/// Decides whether `c` is an ASCII hexadecimal digit.
fn check_hex_digit(c: char) -> (b: bool)
    ensures
        b == is_hex_digit(c),
{
    let v = c as u32;
    (48 <= v && v <= 57) || (65 <= v && v <= 70) || (97 <= v && v <= 102)
}

/// Computes the numeric value of the hexadecimal digit `c`.
fn hex_value(c: char) -> (v: u8)
    requires
        is_hex_digit(c),
    ensures
        v == hex_digit_value(c),
        v < 16,
{
    let u = c as u32;
    if 48 <= u && u <= 57 {
        (u - 48) as u8
    } else if 65 <= u && u <= 70 {
        (u - 55) as u8
    } else {
        (u - 87) as u8
    }
}

/// Appends the UTF-8 encoding of the character `c` to `out`.
fn push_utf8(out: &mut Vec<u8>, c: char)
    ensures
        final(out)@ == old(out)@ + encode_scalar(c as u32),
{
    proof {
        char_is_scalar(c);
    }
    let v = c as u32;
    if v < 0x80 {
        out.push((v & 0x7F) as u8);
    } else if v < 0x800 {
        out.push(0xC0 | (((v >> 6) & 0x1F) as u8));
        out.push(0x80 | ((v & 0x3F) as u8));
    } else if v < 0x10000 {
        out.push(0xE0 | (((v >> 12) & 0x0F) as u8));
        out.push(0x80 | (((v >> 6) & 0x3F) as u8));
        out.push(0x80 | ((v & 0x3F) as u8));
    } else {
        out.push(0xF0 | (((v >> 18) & 0x7) as u8));
        out.push(0x80 | (((v >> 12) & 0x3F) as u8));
        out.push(0x80 | (((v >> 6) & 0x3F) as u8));
        out.push(0x80 | ((v & 0x3F) as u8));
    }
    assert(out@ =~= old(out)@ + encode_scalar(c as u32));
}

/// A single state in the state machine used by `unescape`.
#[derive(Clone, Copy)]
pub enum State {
    /// The state after seeing a `\`.
    Escape,
    /// The state after seeing a `\x`.
    HexFirst,
    /// The state after seeing a `\x` followed by one valid hex digit,
    /// which is carried as the payload.
    HexSecond(char),
    /// Default state.
    Literal,
}

/// The state machine's invariant: a carried hex digit really is one.
pub open spec fn state_wf(st: State) -> bool {
    match st {
        State::HexSecond(first) => is_hex_digit(first),
        _ => true,
    }
}

/// The state reached from `st` after scanning one character `c`.
pub open spec fn step_state(st: State, c: char) -> State {
    match st {
        State::Escape => if c == 'x' {
            State::HexFirst
        } else {
            State::Literal
        },
        State::HexFirst => if is_hex_digit(c) {
            State::HexSecond(c)
        } else {
            State::Literal
        },
        State::HexSecond(_) => State::Literal,
        State::Literal => if c == '\\' {
            State::Escape
        } else {
            State::Literal
        },
    }
}

/// The bytes emitted when scanning one character `c` in state `st`.
///
/// A completed `\n`, `\r` or `\t` escape emits the corresponding control
/// byte; a completed `\xZZ` escape emits the byte the two digits denote; an
/// escape that fails to complete emits the text read so far verbatim, the
/// final character in its full UTF-8 encoding.
pub open spec fn step_output(st: State, c: char) -> Seq<u8> {
    match st {
        State::Escape => {
            if c == 'n' {
                seq![0x0Au8]
            } else if c == 'r' {
                seq![0x0Du8]
            } else if c == 't' {
                seq![0x09u8]
            } else if c == 'x' {
                seq![]
            } else {
                seq![0x5Cu8] + encode_scalar(c as u32)
            }
        },
        State::HexFirst => {
            if is_hex_digit(c) {
                seq![]
            } else {
                seq![0x5Cu8, 0x78u8] + encode_scalar(c as u32)
            }
        },
        State::HexSecond(first) => {
            if is_hex_digit(c) {
                seq![(16 * hex_digit_value(first) + hex_digit_value(c)) as u8]
            } else {
                seq![0x5Cu8, 0x78u8] + encode_scalar(first as u32) + encode_scalar(c as u32)
            }
        },
        State::Literal => {
            if c == '\\' {
                seq![]
            } else {
                encode_scalar(c as u32)
            }
        },
    }
}

/// The bytes emitted when the input ends in state `st`: an escape cut short
/// by the end of the input is reproduced verbatim.
pub open spec fn flush_output(st: State) -> Seq<u8> {
    match st {
        State::Escape => seq![0x5Cu8],
        State::HexFirst => seq![0x5Cu8, 0x78u8],
        State::HexSecond(first) => seq![0x5Cu8, 0x78u8] + encode_scalar(first as u32),
        State::Literal => seq![],
    }
}

/// The bytes produced by scanning all of `s` starting in state `st`,
/// followed by the end-of-input flush.
pub open spec fn scan(st: State, s: Seq<char>) -> Seq<u8>
    decreases s.len(),
{
    if s.len() == 0 {
        flush_output(st)
    } else {
        step_output(st, s[0]) + scan(step_state(st, s[0]), s.drop_first())
    }
}

/// The byte sequence that the string `s` denotes: the full scan from the
/// default state.
pub open spec fn unescaped(s: Seq<char>) -> Seq<u8> {
    scan(State::Literal, s)
}

/// Unescapes a string given on the command line. It supports a limited set of
/// escape sequences:
///
/// * `\t`, `\r` and `\n` are mapped to their corresponding ASCII bytes.
/// * `\xZZ` hexadecimal escapes are mapped to their byte.
///
/// Any escape that does not complete (an unrecognized escape character, a
/// missing or invalid hex digit, or an input ending mid-escape) is reproduced
/// verbatim. The function is total: it accepts every input and never fails.
pub fn unescape(s: &str) -> (bytes: Vec<u8>)
    ensures
        bytes@ == unescaped(s@),
{
    let n = s.unicode_len();
    let mut bytes: Vec<u8> = Vec::new();
    let mut state = State::Literal;
    let mut i: usize = 0;
    proof {
        assert(s@.skip(0) =~= s@);
        assert(bytes@ + scan(state, s@) =~= scan(state, s@));
    }
    while i < n
        invariant
            n == s@.len(),
            i <= n,
            state_wf(state),
            unescaped(s@) == bytes@ + scan(state, s@.skip(i as int)),
        decreases n - i,
    {
        let c = s.get_char(i);
        let ghost st0 = state;
        let ghost pre = bytes@;
        match state {
            State::Escape => {
                if c == 'n' {
                    bytes.push(0x0A);
                    state = State::Literal;
                } else if c == 'r' {
                    bytes.push(0x0D);
                    state = State::Literal;
                } else if c == 't' {
                    bytes.push(0x09);
                    state = State::Literal;
                } else if c == 'x' {
                    state = State::HexFirst;
                } else {
                    bytes.push(0x5C);
                    push_utf8(&mut bytes, c);
                    state = State::Literal;
                }
            },
            State::HexFirst => {
                if check_hex_digit(c) {
                    state = State::HexSecond(c);
                } else {
                    bytes.push(0x5C);
                    bytes.push(0x78);
                    push_utf8(&mut bytes, c);
                    state = State::Literal;
                }
            },
            State::HexSecond(first) => {
                if check_hex_digit(c) {
                    bytes.push(16 * hex_value(first) + hex_value(c));
                    state = State::Literal;
                } else {
                    bytes.push(0x5C);
                    bytes.push(0x78);
                    push_utf8(&mut bytes, first);
                    push_utf8(&mut bytes, c);
                    state = State::Literal;
                }
            },
            State::Literal => {
                if c == '\\' {
                    state = State::Escape;
                } else {
                    push_utf8(&mut bytes, c);
                }
            },
        }
        proof {
            let tail = s@.skip(i as int);
            assert(tail.len() > 0);
            assert(tail[0] == s@[i as int]);
            assert(tail.drop_first() =~= s@.skip(i as int + 1));
            assert(scan(st0, tail) == step_output(st0, c) + scan(
                step_state(st0, c),
                s@.skip(i as int + 1),
            ));
            assert(bytes@ =~= pre + step_output(st0, c));
            assert(state == step_state(st0, c));
            assert(pre + (step_output(st0, c) + scan(state, s@.skip(i as int + 1))) =~= (pre
                + step_output(st0, c)) + scan(state, s@.skip(i as int + 1)));
            assert(unescaped(s@) == bytes@ + scan(state, s@.skip(i as int + 1)));
        }
        i += 1;
    }
    let ghost pre = bytes@;
    match state {
        State::Escape => {
            bytes.push(0x5C);
        },
        State::HexFirst => {
            bytes.push(0x5C);
            bytes.push(0x78);
        },
        State::HexSecond(first) => {
            bytes.push(0x5C);
            bytes.push(0x78);
            push_utf8(&mut bytes, first);
        },
        State::Literal => {},
    }
    proof {
        assert(s@.skip(n as int) =~= Seq::<char>::empty());
        assert(scan(state, s@.skip(n as int)) == flush_output(state));
        assert(bytes@ =~= pre + flush_output(state));
    }
    bytes
}

/// Identity on literals: a string containing no backslash unescapes to
/// exactly its own UTF-8 encoding.
pub proof fn lemma_no_backslash_identity(s: Seq<char>)
    requires
        forall|i: int| 0 <= i < s.len() ==> s[i] != '\\',
    ensures
        unescaped(s) == encode_utf8(s),
    decreases s.len(),
{
    if s.len() > 0 {
        assert(forall|i: int| 0 <= i < s.drop_first().len() ==> s.drop_first()[i] != '\\');
        lemma_no_backslash_identity(s.drop_first());
    }
}

/// A complete hex escape: `\x` followed by two hex digits denotes the single
/// byte whose value is `16 * value(first digit) + value(second digit)`.
pub proof fn lemma_hex_escape(a: char, b: char)
    requires
        is_hex_digit(a),
        is_hex_digit(b),
    ensures
        unescaped(seq!['\\', 'x', a, b]) == seq![
            (16 * hex_digit_value(a) + hex_digit_value(b)) as u8,
        ],
{
    let s = seq!['\\', 'x', a, b];
    let s1 = seq!['x', a, b];
    let s2 = seq![a, b];
    let s3 = seq![b];
    assert(s.drop_first() =~= s1);
    assert(s1.drop_first() =~= s2);
    assert(s2.drop_first() =~= s3);
    assert(s3.drop_first() =~= Seq::<char>::empty());
    assert(scan(State::Literal, Seq::<char>::empty()) == Seq::<u8>::empty());
    assert(scan(State::HexSecond(a), s3) =~= seq![
        (16 * hex_digit_value(a) + hex_digit_value(b)) as u8,
    ]);
    assert(scan(State::HexFirst, s2) =~= seq![
        (16 * hex_digit_value(a) + hex_digit_value(b)) as u8,
    ]);
    assert(scan(State::Escape, s1) =~= seq![(16 * hex_digit_value(a) + hex_digit_value(b)) as u8]);
    assert(unescaped(s) =~= seq![(16 * hex_digit_value(a) + hex_digit_value(b)) as u8]);
}

/// Hex digits are read case-insensitively: a lower-case letter digit and its
/// upper-case counterpart denote the same value.
pub proof fn lemma_hex_value_case_insensitive(lower: char, upper: char)
    requires
        97 <= lower as u32 <= 102,
        upper as u32 + 32 == lower as u32,
    ensures
        is_hex_digit(lower),
        is_hex_digit(upper),
        hex_digit_value(lower) == hex_digit_value(upper),
{
}

/// Two complete hex escapes whose digits denote the same values unescape to
/// the same byte, whatever the case of the digits.
pub proof fn lemma_hex_escape_case_insensitive(a1: char, b1: char, a2: char, b2: char)
    requires
        is_hex_digit(a1),
        is_hex_digit(b1),
        is_hex_digit(a2),
        is_hex_digit(b2),
        hex_digit_value(a1) == hex_digit_value(a2),
        hex_digit_value(b1) == hex_digit_value(b2),
    ensures
        unescaped(seq!['\\', 'x', a1, b1]) == unescaped(seq!['\\', 'x', a2, b2]),
{
    lemma_hex_escape(a1, b1);
    lemma_hex_escape(a2, b2);
}

} // verus!
