//! Lists of bytes, written as `[1, 2, 3]`.
use vstd::prelude::*;
use crate::fuse::quoted::{preceded, value_of};
use crate::fuse::text::{dec, lemma_dec_digits, lemma_read_nat, put_nat, read_nat, take_nat};

verus! {

/// What follows an item of a list: the further items, each after a comma and
/// a blank, and the closing bracket.
pub open spec fn list_tail(v: Seq<u8>) -> Seq<u8>
    decreases v.len(),
{
    if v.len() == 0 {
        seq![93u8]
    } else {
        seq![44u8, 32u8] + (dec(v[0] as nat) + list_tail(v.skip(1)))
    }
}

/// What follows the opening bracket of a list.
pub open spec fn list_inside(v: Seq<u8>) -> Seq<u8> {
    if v.len() == 0 {
        seq![93u8]
    } else {
        dec(v[0] as nat) + list_tail(v.skip(1))
    }
}

/// A list of bytes in brackets.
pub open spec fn byte_list(v: Seq<u8>) -> Seq<u8> {
    seq![91u8] + list_inside(v)
}

/// Reads what follows an item of a list.
pub open spec fn read_list_tail(s: Seq<u8>) -> Option<(Seq<u8>, Seq<u8>)>
    decreases s.len(),
{
    if s.len() > 0 && s[0] == 93 {
        Some((Seq::empty(), s.skip(1)))
    } else if s.len() >= 2 && s[0] == 44 && s[1] == 32 {
        match read_nat(s.skip(2), 255) {
            Some((v, rest)) => if rest.len() < s.len() {
                preceded(seq![v as u8], read_list_tail(rest))
            } else {
                None
            },
            None => None,
        }
    } else {
        None
    }
}

/// Reads a list of bytes in brackets.
pub open spec fn read_byte_list(s: Seq<u8>) -> Option<(Seq<u8>, Seq<u8>)> {
    if s.len() >= 2 && s[0] == 91 && s[1] == 93 {
        Some((Seq::empty(), s.skip(2)))
    } else if s.len() >= 1 && s[0] == 91 {
        match read_nat(s.skip(1), 255) {
            Some((v, rest)) => preceded(seq![v as u8], read_list_tail(rest)),
            None => None,
        }
    } else {
        None
    }
}

/// The rest of a list is read back from in front of anything.
pub proof fn lemma_read_list_tail(v: Seq<u8>, rest: Seq<u8>)
    ensures
        read_list_tail(list_tail(v) + rest) == Some((v, rest)),
    decreases v.len(),
{
    let s = list_tail(v) + rest;
    if v.len() == 0 {
        assert(s =~= seq![93u8] + rest);
        assert(s.skip(1) =~= rest);
    } else {
        let after = list_tail(v.skip(1)) + rest;
        lemma_read_list_tail(v.skip(1), rest);
        assert(s[0] == 44 && s[1] == 32);
        assert(s.skip(2) =~= dec(v[0] as nat) + after);
        assert(after[0] == 93 || after[0] == 44);
        lemma_read_nat(v[0] as nat, 255, after);
        lemma_dec_digits(v[0] as nat);
        assert(seq![v[0]] + v.skip(1) =~= v);
    }
}

/// A list is read back from in front of anything.
pub proof fn lemma_read_byte_list(v: Seq<u8>, rest: Seq<u8>)
    ensures
        read_byte_list(byte_list(v) + rest) == Some((v, rest)),
{
    let s = byte_list(v) + rest;
    assert(s[0] == 91);
    if v.len() == 0 {
        assert(s =~= seq![91u8, 93u8] + rest);
        assert(s.skip(2) =~= rest);
    } else {
        let after = list_tail(v.skip(1)) + rest;
        lemma_read_list_tail(v.skip(1), rest);
        lemma_dec_digits(v[0] as nat);
        assert(s[1] == dec(v[0] as nat)[0]);
        assert(s.skip(1) =~= dec(v[0] as nat) + after);
        assert(after[0] == 93 || after[0] == 44);
        lemma_read_nat(v[0] as nat, 255, after);
        assert(seq![v[0]] + v.skip(1) =~= v);
    }
}

/// Appends a list of bytes in brackets.
pub fn put_byte_list(buf: &mut Vec<u8>, v: &[u8])
    ensures
        final(buf)@ == old(buf)@ + byte_list(v@),
{
    buf.push(91u8);
    let mut i: usize = 0;
    while i < v.len()
        invariant
            i <= v@.len(),
            buf@ + (if i == 0 {
                list_inside(v@)
            } else {
                list_tail(v@.skip(i as int))
            }) == old(buf)@ + byte_list(v@),
        decreases v@.len() - i,
    {
        let ghost before = buf@;
        let ghost after = list_tail(v@.skip(i + 1));
        if i > 0 {
            buf.push(44u8);
            buf.push(32u8);
        }
        put_nat(buf, v[i] as u64);
        proof {
            assert(v@.skip(i as int).skip(1) =~= v@.skip(i + 1));
            assert(v@.skip(i as int)[0] == v@[i as int]);
            if i == 0 {
                assert(v@.skip(0) =~= v@);
                assert(buf@ + after =~= before + list_inside(v@));
            } else {
                assert(buf@ + after =~= before + list_tail(v@.skip(i as int)));
            }
        }
        i += 1;
    }
    let ghost before = buf@;
    buf.push(93u8);
    proof {
        if v@.len() == 0 {
            assert(buf@ =~= before + list_inside(v@));
        } else {
            assert(v@.skip(v@.len() as int) =~= Seq::<u8>::empty());
            assert(buf@ =~= before + list_tail(v@.skip(v@.len() as int)));
        }
    }
}

/// Reads a list of bytes in brackets at `pos`.
pub fn take_byte_list(b: &[u8], pos: usize) -> (r: Option<(Vec<u8>, usize)>)
    requires
        pos <= b@.len(),
    ensures
        match r {
            Some((v, p)) => pos < p <= b@.len() && read_byte_list(b@.skip(pos as int)) == Some(
                (v@, b@.skip(p as int)),
            ),
            None => read_byte_list(b@.skip(pos as int)) is None,
        },
{
    let ghost s = b@.skip(pos as int);
    if pos >= b.len() || b[pos] != 91u8 {
        proof {
            if pos < b@.len() {
                assert(s[0] == b@[pos as int]);
            }
        }
        return None;
    }
    assert(s[0] == b@[pos as int]);
    assert(s.skip(1) =~= b@.skip(pos + 1));
    let mut out: Vec<u8> = Vec::new();
    if b.len() - pos >= 2 && b[pos + 1] == 93u8 {
        assert(s[1] == b@[pos + 1]);
        assert(s.skip(2) =~= b@.skip(pos + 2));
        return Some((out, pos + 2));
    }
    proof {
        if s.len() >= 2 {
            assert(s[1] == b@[pos + 1]);
        }
    }
    let mut i: usize = match take_nat(b, pos + 1, 255u64) {
        Some((v, p)) => {
            out.push(v as u8);
            p
        },
        None => {
            return None;
        },
    };
    proof {
        let next = read_list_tail(b@.skip(i as int));
        if next is Some {
            assert(seq![out@[0]] + value_of(next) =~= out@ + value_of(next));
        }
    }
    loop
        invariant
            pos < i <= b@.len(),
            b@.len() <= usize::MAX,
            read_byte_list(b@.skip(pos as int)) == preceded(out@, read_list_tail(b@.skip(i as int))),
        decreases b@.len() - i,
    {
        let ghost t = b@.skip(i as int);
        let ghost done = out@;
        if i >= b.len() {
            return None;
        }
        assert(t[0] == b@[i as int]);
        if b[i] == 93u8 {
            assert(t.skip(1) =~= b@.skip(i + 1));
            assert(done + Seq::<u8>::empty() =~= done);
            return Some((out, i + 1));
        }
        if b.len() - i >= 2 && b[i] == 44u8 && b[i + 1] == 32u8 {
            assert(t[1] == b@[i + 1]);
            assert(t.skip(2) =~= b@.skip(i + 2));
            match take_nat(b, i + 2, 255u64) {
                Some((v, p)) => {
                    out.push(v as u8);
                    i = p;
                    proof {
                        let next = read_list_tail(b@.skip(i as int));
                        if next is Some {
                            assert(done + (seq![v as u8] + value_of(next)) =~= out@ + value_of(
                                next,
                            ));
                        }
                    }
                },
                None => {
                    return None;
                },
            }
        } else {
            proof {
                if t.len() >= 2 {
                    assert(t[1] == b@[i + 1]);
                }
            }
            return None;
        }
    }
}

} // verus!
