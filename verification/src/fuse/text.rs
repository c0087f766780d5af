//! The pieces of text that the stored records are made of: fixed words,
//! decimal numbers and double-quoted strings.
//!
//! Each piece comes as a spec function that says what is written, a spec
//! reader that says what is accepted, an executable writer and reader that
//! are proved equal to them, and a lemma that reading what was written gives
//! the value back. Readers work on the unread part of the text and return the
//! value with what is left.
use vstd::prelude::*;
use vstd::string::StringSliceAdditionalSpecFns;

verus! {

/// The bytes of a word.
pub open spec fn lit(word: &str) -> Seq<u8> {
    word.spec_bytes()
}

/// What is left of a reader's result, or nothing where it failed.
pub open spec fn rest_of<T>(r: Option<(T, Seq<u8>)>) -> Seq<u8> {
    match r {
        Some((_, rest)) => rest,
        None => Seq::empty(),
    }
}

/// The value of a reader's result. It is only asked for where the reader
/// did not fail.
pub open spec fn value_in<T>(r: Option<(T, Seq<u8>)>) -> T {
    match r {
        Some((value, _)) => value,
        None => arbitrary(),
    }
}

/// Joining texts does not depend on where the brackets stand.
pub proof fn lemma_join(a: Seq<u8>, b: Seq<u8>, c: Seq<u8>)
    ensures
        (a + b) + c == a + (b + c),
{
    assert((a + b) + c =~= a + (b + c));
}

/// Whether `s` begins with `word`.
pub open spec fn starts_with(s: Seq<u8>, word: Seq<u8>) -> bool {
    word.len() <= s.len() && s.take(word.len() as int) == word
}

/// `s` without its leading `word`, where it begins with it.
pub open spec fn eat(s: Seq<u8>, word: Seq<u8>) -> Option<Seq<u8>> {
    if starts_with(s, word) {
        Some(s.skip(word.len() as int))
    } else {
        None
    }
}

/// A word is read back from in front of anything.
pub proof fn lemma_eat(word: Seq<u8>, rest: Seq<u8>)
    ensures
        starts_with(word + rest, word),
        eat(word + rest, word) == Some(rest),
{
    assert((word + rest).take(word.len() as int) =~= word);
    assert((word + rest).skip(word.len() as int) =~= rest);
}

/// A text that begins with another byte than `word` does not begin with `word`.
pub proof fn lemma_other_start(s: Seq<u8>, word: Seq<u8>)
    requires
        word.len() > 0,
        s.len() == 0 || s[0] != word[0],
    ensures
        !starts_with(s, word),
{
    if word.len() <= s.len() {
        assert(s.take(word.len() as int)[0] == s[0]);
    }
}

/// Appends a word to the text.
pub fn put_word(buf: &mut Vec<u8>, word: &str)
    ensures
        final(buf)@ == old(buf)@ + lit(word),
{
    let bytes = word.as_bytes();
    let mut i: usize = 0;
    while i < bytes.len()
        invariant
            i <= bytes@.len(),
            bytes@ == lit(word),
            buf@ == old(buf)@ + bytes@.take(i as int),
        decreases bytes@.len() - i,
    {
        buf.push(bytes[i]);
        i += 1;
        assert(buf@ =~= old(buf)@ + bytes@.take(i as int));
    }
    assert(bytes@.take(bytes@.len() as int) =~= bytes@);
}

/// Reads a word at `pos`.
pub fn take_word(b: &[u8], pos: usize, word: &str) -> (r: Option<usize>)
    requires
        pos <= b@.len(),
    ensures
        match r {
            Some(p) => pos <= p <= b@.len() && eat(b@.skip(pos as int), lit(word)) == Some(
                b@.skip(p as int),
            ),
            None => eat(b@.skip(pos as int), lit(word)) is None,
        },
{
    let bytes = word.as_bytes();
    let ghost s = b@.skip(pos as int);
    if bytes.len() > b.len() - pos {
        return None;
    }
    let mut i: usize = 0;
    while i < bytes.len()
        invariant
            i <= bytes@.len(),
            bytes@ == lit(word),
            pos + bytes@.len() <= b@.len() <= usize::MAX,
            s == b@.skip(pos as int),
            s.take(i as int) == bytes@.take(i as int),
        decreases bytes@.len() - i,
    {
        if b[pos + i] != bytes[i] {
            proof {
                if starts_with(s, lit(word)) {
                    assert(s.take(bytes@.len() as int)[i as int] == s[i as int]);
                }
            }
            return None;
        }
        i += 1;
        assert(s.take(i as int) =~= s.take(i - 1).push(s[i - 1]));
        assert(bytes@.take(i as int) =~= bytes@.take(i - 1).push(bytes@[i - 1]));
    }
    assert(bytes@.take(bytes@.len() as int) =~= bytes@);
    assert(s.skip(bytes@.len() as int) =~= b@.skip(pos + bytes@.len()));
    Some(pos + bytes.len())
}

/// Whether a byte is a decimal digit.
pub open spec fn is_digit(b: u8) -> bool {
    48 <= b && b <= 57
}

/// The decimal digits of a number, without leading zeros.
pub open spec fn dec(n: nat) -> Seq<u8>
    decreases n,
{
    if n < 10 {
        seq![(48 + n) as u8]
    } else {
        dec(n / 10).push((48 + n % 10) as u8)
    }
}

/// Where the run of digits that starts at `i` ends.
pub open spec fn digits_end(s: Seq<u8>, i: int) -> int
    decreases s.len() - i,
{
    if 0 <= i < s.len() && is_digit(s[i]) {
        digits_end(s, i + 1)
    } else {
        i
    }
}

/// The number that a run of digits spells.
pub open spec fn digits_value(s: Seq<u8>) -> nat
    decreases s.len(),
{
    if s.len() == 0 {
        0
    } else {
        digits_value(s.drop_last()) * 10 + (s.last() - 48) as nat
    }
}

/// Reads the longest run of digits, where there is one and it spells a number
/// of at most `max`.
pub open spec fn read_nat(s: Seq<u8>, max: nat) -> Option<(nat, Seq<u8>)> {
    let end = digits_end(s, 0);
    let value = digits_value(s.take(end));
    if end > 0 && value <= max {
        Some((value, s.skip(end)))
    } else {
        None
    }
}

/// The digits of a number are digits, and there is at least one.
pub proof fn lemma_dec_digits(n: nat)
    ensures
        dec(n).len() >= 1,
        forall|i: int| 0 <= i < dec(n).len() ==> is_digit(#[trigger] dec(n)[i]),
    decreases n,
{
    if n >= 10 {
        lemma_dec_digits(n / 10);
    }
}

/// The digits of a number spell that number.
pub proof fn lemma_dec_value(n: nat)
    ensures
        digits_value(dec(n)) == n,
    decreases n,
{
    if n < 10 {
        assert(dec(n).drop_last() =~= Seq::<u8>::empty());
        assert(digits_value(dec(n).drop_last()) == 0);
    } else {
        lemma_dec_value(n / 10);
        assert(dec(n).drop_last() =~= dec(n / 10));
    }
}

/// A stretch of digits that ends at `j` is a run that ends at `j`.
pub proof fn lemma_digits_run(s: Seq<u8>, i: int, j: int)
    requires
        0 <= i <= j <= s.len(),
        forall|k: int| i <= k < j ==> is_digit(#[trigger] s[k]),
        j == s.len() || !is_digit(s[j]),
    ensures
        digits_end(s, i) == j,
    decreases j - i,
{
    if i < j {
        lemma_digits_run(s, i + 1, j);
    }
}

/// A number is read back from in front of anything that is not a digit.
pub proof fn lemma_read_nat(n: nat, max: nat, rest: Seq<u8>)
    requires
        n <= max,
        rest.len() == 0 || !is_digit(rest[0]),
    ensures
        read_nat(dec(n) + rest, max) == Some((n, rest)),
{
    let s = dec(n) + rest;
    let len = dec(n).len() as int;
    lemma_dec_digits(n);
    lemma_dec_value(n);
    assert forall|k: int| 0 <= k < len implies is_digit(#[trigger] s[k]) by {
        assert(s[k] == dec(n)[k]);
    }
    if len < s.len() {
        assert(s[len] == rest[0]);
    }
    lemma_digits_run(s, 0, len);
    assert(s.take(len) =~= dec(n));
    assert(s.skip(len) =~= rest);
}

/// Appends the decimal digits of `n`.
pub fn put_nat(buf: &mut Vec<u8>, n: u64)
    ensures
        final(buf)@ == old(buf)@ + dec(n as nat),
    decreases n,
{
    if n >= 10 {
        put_nat(buf, n / 10);
    }
    buf.push(48 + (n % 10) as u8);
    assert(buf@ =~= old(buf)@ + dec(n as nat));
}

/// Reads a number of at most `max` at `pos`.
pub fn take_nat(b: &[u8], pos: usize, max: u64) -> (r: Option<(u64, usize)>)
    requires
        pos <= b@.len(),
    ensures
        match r {
            Some((v, p)) => pos < p <= b@.len() && v <= max && read_nat(
                b@.skip(pos as int),
                max as nat,
            ) == Some((v as nat, b@.skip(p as int))),
            None => read_nat(b@.skip(pos as int), max as nat) is None,
        },
{
    let ghost s = b@.skip(pos as int);
    let mut i: usize = pos;
    let mut acc: u64 = 0;
    let mut over = false;
    while i < b.len() && 48 <= b[i] && b[i] <= 57
        invariant
            pos <= i <= b@.len(),
            s == b@.skip(pos as int),
            digits_end(s, 0) == digits_end(s, i - pos),
            !over ==> acc == digits_value(s.take(i - pos)) && acc <= max,
            over ==> digits_value(s.take(i - pos)) > max,
        decreases b@.len() - i,
    {
        let d: u64 = (b[i] - 48) as u64;
        proof {
            assert(s[i - pos] == b@[i as int]);
            assert(s.take(i - pos + 1).drop_last() =~= s.take(i - pos));
            assert(s.take(i - pos + 1).last() == b@[i as int]);
        }
        if !over {
            if d > max || acc > (max - d) / 10 {
                over = true;
            } else {
                acc = acc * 10 + d;
            }
        }
        i += 1;
    }
    proof {
        assert(digits_end(s, i - pos) == i - pos) by {
            if i < b@.len() {
                assert(s[i - pos] == b@[i as int]);
            }
        }
        assert(s.skip(i - pos) =~= b@.skip(i as int));
    }
    if i == pos || over {
        None
    } else {
        Some((acc, i))
    }
}

/// A whole number in decimal, with a minus sign where it is negative.
pub open spec fn signed(v: int) -> Seq<u8> {
    if v < 0 {
        seq![45u8] + dec((-v) as nat)
    } else {
        dec(v as nat)
    }
}

/// Reads a whole number that fits into 64 bits with a sign.
pub open spec fn read_int(s: Seq<u8>) -> Option<(int, Seq<u8>)> {
    if s.len() > 0 && s[0] == 45u8 {
        match read_nat(s.skip(1), 0x8000_0000_0000_0000) {
            Some((v, rest)) => Some((-(v as int), rest)),
            None => None,
        }
    } else {
        match read_nat(s, 0x7fff_ffff_ffff_ffff) {
            Some((v, rest)) => Some((v as int, rest)),
            None => None,
        }
    }
}

/// A whole number is read back from in front of anything that is not a digit.
pub proof fn lemma_read_int(v: i64, rest: Seq<u8>)
    requires
        rest.len() == 0 || !is_digit(rest[0]),
    ensures
        read_int(signed(v as int) + rest) == Some((v as int, rest)),
{
    let s = signed(v as int) + rest;
    if v < 0 {
        let n = (-(v as int)) as nat;
        assert(s.skip(1) =~= dec(n) + rest);
        assert(s[0] == 45u8);
        lemma_read_nat(n, 0x8000_0000_0000_0000, rest);
    } else {
        lemma_dec_digits(v as nat);
        assert(s[0] == dec(v as nat)[0]);
        lemma_read_nat(v as nat, 0x7fff_ffff_ffff_ffff, rest);
    }
}

/// Appends a whole number in decimal.
pub fn put_int(buf: &mut Vec<u8>, v: i64)
    ensures
        final(buf)@ == old(buf)@ + signed(v as int),
{
    if v < 0 {
        buf.push(45u8);
        let magnitude: u64 = if v == i64::MIN {
            0x8000_0000_0000_0000u64
        } else {
            (-v) as u64
        };
        put_nat(buf, magnitude);
        assert(buf@ =~= old(buf)@ + signed(v as int));
    } else {
        put_nat(buf, v as u64);
    }
}

/// Reads a whole number at `pos`.
pub fn take_int(b: &[u8], pos: usize) -> (r: Option<(i64, usize)>)
    requires
        pos <= b@.len(),
    ensures
        match r {
            Some((v, p)) => pos < p <= b@.len() && read_int(b@.skip(pos as int)) == Some(
                (v as int, b@.skip(p as int)),
            ),
            None => read_int(b@.skip(pos as int)) is None,
        },
{
    let ghost s = b@.skip(pos as int);
    if pos < b.len() && b[pos] == 45u8 {
        assert(s[0] == b@[pos as int]);
        assert(s.skip(1) =~= b@.skip(pos + 1));
        match take_nat(b, pos + 1, 0x8000_0000_0000_0000u64) {
            Some((v, p)) => {
                let value: i64 = if v == 0x8000_0000_0000_0000u64 {
                    i64::MIN
                } else {
                    -(v as i64)
                };
                Some((value, p))
            },
            None => None,
        }
    } else {
        proof {
            if pos < b@.len() {
                assert(s[0] == b@[pos as int]);
            }
        }
        match take_nat(b, pos, 0x7fff_ffff_ffff_ffffu64) {
            Some((v, p)) => Some((v as i64, p)),
            None => None,
        }
    }
}

} // verus!
