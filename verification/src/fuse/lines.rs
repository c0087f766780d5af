//! Lines of a stored record: a key, a value, and a line feed.
use vstd::prelude::*;
use crate::fuse::text::{
    dec, eat, lemma_eat, lemma_read_int, lemma_read_nat, lit, put_int, put_nat, put_word,
    read_int, read_nat, signed, take_int, take_nat, take_word,
};

verus! {

/// `s` without its first byte, where that is `byte`.
pub open spec fn eat_byte(s: Seq<u8>, byte: u8) -> Option<Seq<u8>> {
    if s.len() > 0 && s[0] == byte {
        Some(s.skip(1))
    } else {
        None
    }
}

/// Reads the byte `byte` at `pos`.
pub fn take_byte(b: &[u8], pos: usize, byte: u8) -> (r: Option<usize>)
    requires
        pos <= b@.len(),
    ensures
        match r {
            Some(p) => p == pos + 1 && p <= b@.len() && eat_byte(b@.skip(pos as int), byte)
                == Some(b@.skip(p as int)),
            None => eat_byte(b@.skip(pos as int), byte) is None,
        },
{
    if pos < b.len() && b[pos] == byte {
        assert(b@.skip(pos as int)[0] == b@[pos as int]);
        assert(b@.skip(pos as int).skip(1) =~= b@.skip(pos + 1));
        Some(pos + 1)
    } else {
        proof {
            if pos < b@.len() {
                assert(b@.skip(pos as int)[0] == b@[pos as int]);
            }
        }
        None
    }
}

/// A line that holds a number: the key, the digits, a line feed.
pub open spec fn nat_line(key: &str, v: nat) -> Seq<u8> {
    lit(key) + dec(v) + seq![10u8]
}

/// Reads a line that holds a number of at most `max`.
pub open spec fn read_nat_line(key: &str, max: nat, s: Seq<u8>) -> Option<(nat, Seq<u8>)> {
    match eat(s, lit(key)) {
        Some(s1) => match read_nat(s1, max) {
            Some((v, s2)) => match eat_byte(s2, 10) {
                Some(s3) => Some((v, s3)),
                None => None,
            },
            None => None,
        },
        None => None,
    }
}

/// A line that holds a number is read back from in front of anything.
pub proof fn lemma_read_nat_line(key: &str, v: nat, max: nat, rest: Seq<u8>)
    requires
        v <= max,
    ensures
        read_nat_line(key, max, nat_line(key, v) + rest) == Some((v, rest)),
{
    let tail = seq![10u8] + rest;
    assert(nat_line(key, v) + rest =~= lit(key) + (dec(v) + tail));
    lemma_eat(lit(key), dec(v) + tail);
    lemma_read_nat(v, max, tail);
    assert(tail.skip(1) =~= rest);
}

/// Appends a line that holds a number.
pub fn put_nat_line(buf: &mut Vec<u8>, key: &str, v: u64)
    ensures
        final(buf)@ == old(buf)@ + nat_line(key, v as nat),
{
    put_word(buf, key);
    put_nat(buf, v);
    buf.push(10u8);
    assert(buf@ =~= old(buf)@ + nat_line(key, v as nat));
}

/// Reads a line that holds a number of at most `max` at `pos`.
pub fn take_nat_line(b: &[u8], pos: usize, key: &str, max: u64) -> (r: Option<(u64, usize)>)
    requires
        pos <= b@.len(),
    ensures
        match r {
            Some((v, p)) => pos < p <= b@.len() && v <= max && read_nat_line(
                key,
                max as nat,
                b@.skip(pos as int),
            ) == Some((v as nat, b@.skip(p as int))),
            None => read_nat_line(key, max as nat, b@.skip(pos as int)) is None,
        },
{
    let at1 = match take_word(b, pos, key) {
        Some(p) => p,
        None => {
            return None;
        },
    };
    let (v, at2) = match take_nat(b, at1, max) {
        Some(found) => found,
        None => {
            return None;
        },
    };
    match take_byte(b, at2, 10u8) {
        Some(at3) => Some((v, at3)),
        None => None,
    }
}

/// A line that holds a time: the key, which ends in an opening bracket, the
/// seconds, a comma and a blank, the nanoseconds, a closing bracket and a
/// line feed.
pub open spec fn time_line(key: &str, t: (i64, u32)) -> Seq<u8> {
    lit(key) + signed(t.0 as int) + seq![44u8, 32u8] + dec(t.1 as nat) + seq![93u8, 10u8]
}

/// Reads a line that holds a time.
pub open spec fn read_time_line(key: &str, s: Seq<u8>) -> Option<((i64, u32), Seq<u8>)> {
    match eat(s, lit(key)) {
        Some(s1) => match read_int(s1) {
            Some((secs, s2)) => match eat(s2, seq![44u8, 32u8]) {
                Some(s3) => match read_nat(s3, u32::MAX as nat) {
                    Some((nanos, s4)) => match eat(s4, seq![93u8, 10u8]) {
                        Some(s5) => Some(((secs as i64, nanos as u32), s5)),
                        None => None,
                    },
                    None => None,
                },
                None => None,
            },
            None => None,
        },
        None => None,
    }
}

/// A line that holds a time is read back from in front of anything.
pub proof fn lemma_read_time_line(key: &str, t: (i64, u32), rest: Seq<u8>)
    ensures
        read_time_line(key, time_line(key, t) + rest) == Some((t, rest)),
{
    let close = seq![93u8, 10u8] + rest;
    let nanos = dec(t.1 as nat) + close;
    let comma = seq![44u8, 32u8] + nanos;
    let secs = signed(t.0 as int) + comma;
    assert(time_line(key, t) + rest =~= lit(key) + secs);
    lemma_eat(lit(key), secs);
    assert(comma[0] == 44u8);
    lemma_read_int(t.0, comma);
    lemma_eat(seq![44u8, 32u8], nanos);
    assert(close[0] == 93u8);
    lemma_read_nat(t.1 as nat, u32::MAX as nat, close);
    lemma_eat(seq![93u8, 10u8], rest);
}

/// Reads two given bytes at `pos`.
pub fn take_pair(b: &[u8], pos: usize, first: u8, second: u8) -> (r: Option<usize>)
    requires
        pos <= b@.len(),
    ensures
        match r {
            Some(p) => p == pos + 2 && p <= b@.len() && eat(
                b@.skip(pos as int),
                seq![first, second],
            ) == Some(b@.skip(p as int)),
            None => eat(b@.skip(pos as int), seq![first, second]) is None,
        },
{
    let ghost s = b@.skip(pos as int);
    let ghost word = seq![first, second];
    if b.len() - pos >= 2 && b[pos] == first && b[pos + 1] == second {
        assert(s.take(2) =~= word);
        assert(s.skip(2) =~= b@.skip(pos + 2));
        Some(pos + 2)
    } else {
        proof {
            if s.len() >= 2 && s.take(2) == word {
                assert(s.take(2)[0] == s[0] && s.take(2)[1] == s[1]);
                assert(s[0] == b@[pos as int] && s[1] == b@[pos + 1]);
            }
        }
        None
    }
}

/// Appends a line that holds a time.
pub fn put_time_line(buf: &mut Vec<u8>, key: &str, t: (i64, u32))
    ensures
        final(buf)@ == old(buf)@ + time_line(key, t),
{
    put_word(buf, key);
    put_int(buf, t.0);
    buf.push(44u8);
    buf.push(32u8);
    put_nat(buf, t.1 as u64);
    buf.push(93u8);
    buf.push(10u8);
    assert(buf@ =~= old(buf)@ + time_line(key, t));
}

/// Reads a line that holds a time at `pos`.
pub fn take_time_line(b: &[u8], pos: usize, key: &str) -> (r: Option<((i64, u32), usize)>)
    requires
        pos <= b@.len(),
    ensures
        match r {
            Some((t, p)) => pos < p <= b@.len() && read_time_line(key, b@.skip(pos as int))
                == Some((t, b@.skip(p as int))),
            None => read_time_line(key, b@.skip(pos as int)) is None,
        },
{
    let at1 = match take_word(b, pos, key) {
        Some(p) => p,
        None => {
            return None;
        },
    };
    let (secs, at2) = match take_int(b, at1) {
        Some(found) => found,
        None => {
            return None;
        },
    };
    let at3 = match take_pair(b, at2, 44u8, 32u8) {
        Some(p) => p,
        None => {
            return None;
        },
    };
    let (nanos, at4) = match take_nat(b, at3, 0xffff_ffffu64) {
        Some(found) => found,
        None => {
            return None;
        },
    };
    match take_pair(b, at4, 93u8, 10u8) {
        Some(at5) => Some(((secs, nanos as u32), at5)),
        None => None,
    }
}

} // verus!
