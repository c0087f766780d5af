//! Double-quoted strings: a quote, a backslash and the control bytes are
//! written as escapes, every other byte as itself.
use vstd::prelude::*;

verus! {

/// The digit, `0` to `9` or `A` to `F`, of a value below sixteen.
pub open spec fn hex_digit(v: u8) -> u8 {
    if v < 10 {
        (48 + v) as u8
    } else {
        (55 + v) as u8
    }
}

/// The value of a digit `0` to `9` or `A` to `F`.
pub open spec fn hex_value(c: u8) -> Option<u8> {
    if 48 <= c && c <= 57 {
        Some((c - 48) as u8)
    } else if 65 <= c && c <= 70 {
        Some((c - 55) as u8)
    } else {
        None
    }
}

/// The bytes that are written as `\x` and two digits.
pub open spec fn is_control(b: u8) -> bool {
    b < 32 || b == 127
}

/// One byte of a string, as written between the quotes.
pub open spec fn esc_byte(b: u8) -> Seq<u8> {
    if b == 34 || b == 92 {
        seq![92u8, b]
    } else if is_control(b) {
        seq![92u8, 120u8, hex_digit(b / 16), hex_digit(b % 16)]
    } else {
        seq![b]
    }
}

/// The bytes of a string, as written between the quotes.
pub open spec fn esc(s: Seq<u8>) -> Seq<u8>
    decreases s.len(),
{
    if s.len() == 0 {
        Seq::empty()
    } else {
        esc_byte(s[0]) + esc(s.skip(1))
    }
}

/// A string in double quotes.
pub open spec fn quoted(s: Seq<u8>) -> Seq<u8> {
    seq![34u8] + (esc(s) + seq![34u8])
}

/// A reader's result with `front` put before the value.
pub open spec fn preceded(front: Seq<u8>, r: Option<(Seq<u8>, Seq<u8>)>) -> Option<
    (Seq<u8>, Seq<u8>),
> {
    match r {
        Some((value, rest)) => Some((front + value, rest)),
        None => None,
    }
}

/// The value that a reader gave, or nothing where it failed.
pub open spec fn value_of(r: Option<(Seq<u8>, Seq<u8>)>) -> Seq<u8> {
    match r {
        Some((value, _)) => value,
        None => Seq::empty(),
    }
}

/// The byte that `\x` and the two digits `hi` and `lo` stand for, where they
/// are digits and the byte is one that is written so.
pub open spec fn hex_pair(hi: u8, lo: u8) -> Option<u8> {
    match (hex_value(hi), hex_value(lo)) {
        (Some(h), Some(l)) => if h < 8 && is_control((h * 16 + l) as u8) {
            Some((h * 16 + l) as u8)
        } else {
            None
        },
        _ => None,
    }
}

/// Reads a string up to and with its closing quote.
pub open spec fn read_body(s: Seq<u8>) -> Option<(Seq<u8>, Seq<u8>)>
    decreases s.len(),
{
    if s.len() == 0 {
        None
    } else if s[0] == 34 {
        Some((Seq::empty(), s.skip(1)))
    } else if s[0] == 92 {
        if s.len() >= 2 && (s[1] == 34 || s[1] == 92) {
            preceded(seq![s[1]], read_body(s.skip(2)))
        } else if s.len() >= 4 && s[1] == 120 && hex_pair(s[2], s[3]) is Some {
            preceded(seq![hex_pair(s[2], s[3])->0], read_body(s.skip(4)))
        } else {
            None
        }
    } else if is_control(s[0]) {
        None
    } else {
        preceded(seq![s[0]], read_body(s.skip(1)))
    }
}

/// Reads a string in double quotes.
pub open spec fn read_quoted(s: Seq<u8>) -> Option<(Seq<u8>, Seq<u8>)> {
    if s.len() > 0 && s[0] == 34 {
        read_body(s.skip(1))
    } else {
        None
    }
}

/// The two digits written for a control byte stand for that byte.
pub proof fn lemma_hex_pair(b: u8)
    requires
        is_control(b),
    ensures
        hex_pair(hex_digit(b / 16), hex_digit(b % 16)) == Some(b),
{
}

/// Writing a string and one more byte is writing the string, then the byte.
pub proof fn lemma_esc_push(s: Seq<u8>, b: u8)
    ensures
        esc(s.push(b)) == esc(s) + esc_byte(b),
    decreases s.len(),
{
    if s.len() == 0 {
        assert(s.push(b).skip(1) =~= Seq::<u8>::empty());
        assert(esc(s.push(b).skip(1)) =~= Seq::<u8>::empty());
        assert(esc(s.push(b)) =~= esc_byte(b));
        assert(esc(s) + esc_byte(b) =~= esc_byte(b));
    } else {
        lemma_esc_push(s.skip(1), b);
        assert(s.push(b).skip(1) =~= s.skip(1).push(b));
        assert(esc(s.push(b)) =~= esc(s) + esc_byte(b));
    }
}

/// A string is read back from in front of anything.
pub proof fn lemma_read_body(x: Seq<u8>, rest: Seq<u8>)
    ensures
        read_body(esc(x) + (seq![34u8] + rest)) == Some((x, rest)),
    decreases x.len(),
{
    let s = esc(x) + (seq![34u8] + rest);
    if x.len() == 0 {
        assert(s =~= seq![34u8] + rest);
        assert(s.skip(1) =~= rest);
    } else {
        let b = x[0];
        let tail = esc(x.skip(1)) + (seq![34u8] + rest);
        lemma_read_body(x.skip(1), rest);
        assert(s =~= esc_byte(b) + tail);
        assert(seq![b] + x.skip(1) =~= x);
        if b == 34 || b == 92 {
            assert(s[0] == 92 && s[1] == b);
            assert(s.skip(2) =~= tail);
        } else if is_control(b) {
            lemma_hex_pair(b);
            assert(s[0] == 92 && s[1] == 120);
            assert(s[2] == hex_digit(b / 16) && s[3] == hex_digit(b % 16));
            assert(s.skip(4) =~= tail);
        } else {
            assert(s[0] == b);
            assert(s.skip(1) =~= tail);
        }
    }
}

/// A quoted string is read back from in front of anything.
pub proof fn lemma_read_quoted(x: Seq<u8>, rest: Seq<u8>)
    ensures
        read_quoted(quoted(x) + rest) == Some((x, rest)),
{
    let s = quoted(x) + rest;
    lemma_read_body(x, rest);
    assert(s[0] == 34);
    assert(s.skip(1) =~= esc(x) + (seq![34u8] + rest));
}

fn hex_digit_of(v: u8) -> (c: u8)
    requires
        v < 16,
    ensures
        c == hex_digit(v),
{
    if v < 10 {
        48 + v
    } else {
        55 + v
    }
}

fn hex_value_of(c: u8) -> (v: Option<u8>)
    ensures
        v == hex_value(c),
{
    if 48 <= c && c <= 57 {
        Some(c - 48)
    } else if 65 <= c && c <= 70 {
        Some(c - 55)
    } else {
        None
    }
}

/// Appends a string in double quotes.
pub fn put_quoted(buf: &mut Vec<u8>, s: &[u8])
    ensures
        final(buf)@ == old(buf)@ + quoted(s@),
{
    buf.push(34u8);
    let mut i: usize = 0;
    while i < s.len()
        invariant
            i <= s@.len(),
            buf@ == (old(buf)@ + seq![34u8]) + esc(s@.take(i as int)),
        decreases s@.len() - i,
    {
        let b = s[i];
        proof {
            lemma_esc_push(s@.take(i as int), b);
            assert(s@.take(i + 1) =~= s@.take(i as int).push(b));
        }
        let ghost before = buf@;
        if b == 34u8 || b == 92u8 {
            buf.push(92u8);
            buf.push(b);
        } else if b < 32u8 || b == 127u8 {
            buf.push(92u8);
            buf.push(120u8);
            buf.push(hex_digit_of(b / 16));
            buf.push(hex_digit_of(b % 16));
        } else {
            buf.push(b);
        }
        assert(buf@ =~= before + esc_byte(b));
        assert(buf@ =~= (old(buf)@ + seq![34u8]) + esc(s@.take(i + 1)));
        i += 1;
    }
    assert(s@.take(s@.len() as int) =~= s@);
    buf.push(34u8);
    assert(buf@ =~= old(buf)@ + quoted(s@));
}

/// Reads a string in double quotes at `pos`.
#[verifier::rlimit(50)]
pub fn take_quoted(b: &[u8], pos: usize) -> (r: Option<(Vec<u8>, usize)>)
    requires
        pos <= b@.len(),
    ensures
        match r {
            Some((v, p)) => pos < p <= b@.len() && read_quoted(b@.skip(pos as int)) == Some(
                (v@, b@.skip(p as int)),
            ),
            None => read_quoted(b@.skip(pos as int)) is None,
        },
{
    let ghost s = b@.skip(pos as int);
    if pos >= b.len() || b[pos] != 34u8 {
        proof {
            if pos < b@.len() {
                assert(s[0] == b@[pos as int]);
            }
        }
        return None;
    }
    assert(s[0] == b@[pos as int]);
    assert(s.skip(1) =~= b@.skip(pos + 1));
    let mut out: Vec<u8> = Vec::new();
    let mut i: usize = pos + 1;
    loop
        invariant
            pos < i <= b@.len(),
            b@.len() <= usize::MAX,
            read_quoted(b@.skip(pos as int)) == preceded(out@, read_body(b@.skip(i as int))),
        decreases b@.len() - i,
    {
        let ghost t = b@.skip(i as int);
        let ghost done = out@;
        if i >= b.len() {
            return None;
        }
        let c = b[i];
        assert(t[0] == c);
        if c == 34u8 {
            assert(t.skip(1) =~= b@.skip(i + 1));
            assert(done + Seq::<u8>::empty() =~= done);
            return Some((out, i + 1));
        } else if c == 92u8 {
            if b.len() - i >= 2 && (b[i + 1] == 34u8 || b[i + 1] == 92u8) {
                assert(t[1] == b@[i + 1]);
                assert(t.skip(2) =~= b@.skip(i + 2));
                out.push(b[i + 1]);
                i += 2;
                proof {
                    let next = read_body(b@.skip(i as int));
                    if next is Some {
                        assert(done + (seq![t[1]] + value_of(next)) =~= out@ + value_of(next));
                    }
                }
            } else if b.len() - i >= 4 && b[i + 1] == 120u8 {
                assert(t[1] == b@[i + 1] && t[2] == b@[i + 2] && t[3] == b@[i + 3]);
                let hi = hex_value_of(b[i + 2]);
                let lo = hex_value_of(b[i + 3]);
                match (hi, lo) {
                    (Some(h), Some(l)) => {
                        if h < 8 && (h * 16 + l < 32 || h * 16 + l == 127) {
                            assert(t.skip(4) =~= b@.skip(i + 4));
                            out.push(h * 16 + l);
                            i += 4;
                            proof {
                                let next = read_body(b@.skip(i as int));
                                if next is Some {
                                    assert(done + (seq![(h * 16 + l) as u8] + value_of(next)) =~= out@
                                        + value_of(next));
                                }
                            }
                        } else {
                            return None;
                        }
                    },
                    _ => {
                        return None;
                    },
                }
            } else {
                proof {
                    if t.len() >= 2 {
                        assert(t[1] == b@[i + 1]);
                    }
                }
                return None;
            }
        } else if c < 32u8 || c == 127u8 {
            return None;
        } else {
            assert(t.skip(1) =~= b@.skip(i + 1));
            out.push(c);
            i += 1;
            proof {
                let next = read_body(b@.skip(i as int));
                if next is Some {
                    assert(done + (seq![c] + value_of(next)) =~= out@ + value_of(next));
                }
            }
        }
    }
}

} // verus!
