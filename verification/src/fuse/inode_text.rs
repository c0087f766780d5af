//! The stored text of an inode's attributes: one line for each field, in the
//! order of the fields, and the extended attributes as a block at the end.
//!
//! The text is a YAML mapping. A reader of YAML finds in it the fields under
//! their names, the times as pairs `[seconds, nanoseconds]`, the kind as a
//! word, and the extended attributes as a mapping from lists of bytes to
//! lists of bytes.
use vstd::prelude::*;
use vstd::string::StringSliceAdditionalSpecFns;
use crate::fuse::attrs::{
    pair_view, pairs_view, xattrs_sorted, FileKind, InodeAttributes, InodeAttributesView,
};
use crate::fuse::dentry::{bytes_rank, lemma_lex_irreflexive, lemma_lex_transitive, lex_lt, Rank};
use crate::fuse::bytelist::{
    byte_list, lemma_read_byte_list, put_byte_list, read_byte_list, take_byte_list,
};
use crate::fuse::lines::{
    eat_byte, lemma_read_nat_line, lemma_read_time_line, nat_line, put_nat_line, put_time_line,
    read_nat_line, read_time_line, take_byte, take_nat_line, take_time_line, time_line,
};
use crate::fuse::text::{
    eat, lemma_eat, lemma_join, lemma_other_start, lit, put_word, rest_of, starts_with, take_word, value_in,
};

verus! {

/// The word for a kind.
pub open spec fn kind_word(kind: FileKind) -> Seq<u8> {
    match kind {
        FileKind::File => lit("File"),
        FileKind::Directory => lit("Directory"),
        FileKind::Symlink => lit("Symlink"),
    }
}

/// Reads the word for a kind.
pub open spec fn read_kind(s: Seq<u8>) -> Option<(FileKind, Seq<u8>)> {
    if starts_with(s, lit("File")) {
        Some((FileKind::File, s.skip(lit("File").len() as int)))
    } else if starts_with(s, lit("Directory")) {
        Some((FileKind::Directory, s.skip(lit("Directory").len() as int)))
    } else if starts_with(s, lit("Symlink")) {
        Some((FileKind::Symlink, s.skip(lit("Symlink").len() as int)))
    } else {
        None
    }
}

/// The words for the kinds begin with different letters.
pub proof fn lemma_kind_words()
    ensures
        lit("File").len() == 4 && lit("File")[0] == 70u8,
        lit("Directory").len() == 9 && lit("Directory")[0] == 68u8,
        lit("Symlink").len() == 7 && lit("Symlink")[0] == 83u8,
{
    reveal_strlit("File");
    reveal_strlit("Directory");
    reveal_strlit("Symlink");
    assert(vstd::utf8::is_ascii_chars("File"@));
    assert(vstd::utf8::is_ascii_chars("Directory"@));
    assert(vstd::utf8::is_ascii_chars("Symlink"@));
    vstd::utf8::is_ascii_chars_encode_utf8("File"@);
    vstd::utf8::is_ascii_chars_encode_utf8("Directory"@);
    vstd::utf8::is_ascii_chars_encode_utf8("Symlink"@);
    assert(lit("File")[0] == "File"@[0] as u8);
    assert(lit("Directory")[0] == "Directory"@[0] as u8);
    assert(lit("Symlink")[0] == "Symlink"@[0] as u8);
}

/// The word for a kind is read back from in front of anything.
pub proof fn lemma_read_kind(kind: FileKind, rest: Seq<u8>)
    ensures
        read_kind(kind_word(kind) + rest) == Some((kind, rest)),
{
    let s = kind_word(kind) + rest;
    lemma_kind_words();
    lemma_eat(kind_word(kind), rest);
    assert(s[0] == kind_word(kind)[0]);
    match kind {
        FileKind::File => {},
        FileKind::Directory => {
            lemma_other_start(s, lit("File"));
        },
        FileKind::Symlink => {
            lemma_other_start(s, lit("File"));
            lemma_other_start(s, lit("Directory"));
        },
    }
}

/// Appends the word for a kind.
pub fn put_kind(buf: &mut Vec<u8>, kind: FileKind)
    ensures
        final(buf)@ == old(buf)@ + kind_word(kind),
{
    match kind {
        FileKind::File => put_word(buf, "File"),
        FileKind::Directory => put_word(buf, "Directory"),
        FileKind::Symlink => put_word(buf, "Symlink"),
    }
}

/// Reads the word for a kind at `pos`.
pub fn take_kind(b: &[u8], pos: usize) -> (r: Option<(FileKind, usize)>)
    requires
        pos <= b@.len(),
    ensures
        match r {
            Some((kind, p)) => pos <= p <= b@.len() && read_kind(b@.skip(pos as int)) == Some(
                (kind, b@.skip(p as int)),
            ),
            None => read_kind(b@.skip(pos as int)) is None,
        },
{
    if let Some(p) = take_word(b, pos, "File") {
        return Some((FileKind::File, p));
    }
    if let Some(p) = take_word(b, pos, "Directory") {
        return Some((FileKind::Directory, p));
    }
    if let Some(p) = take_word(b, pos, "Symlink") {
        return Some((FileKind::Symlink, p));
    }
    None
}

/// The line that holds the kind.
pub open spec fn kind_line(kind: FileKind) -> Seq<u8> {
    lit("kind: ") + kind_word(kind) + seq![10u8]
}

/// Reads the line that holds the kind.
pub open spec fn read_kind_line(s: Seq<u8>) -> Option<(FileKind, Seq<u8>)> {
    match eat(s, lit("kind: ")) {
        Some(s1) => match read_kind(s1) {
            Some((kind, s2)) => match eat_byte(s2, 10) {
                Some(s3) => Some((kind, s3)),
                None => None,
            },
            None => None,
        },
        None => None,
    }
}

/// The line that holds the kind is read back from in front of anything.
pub proof fn lemma_read_kind_line(kind: FileKind, rest: Seq<u8>)
    ensures
        read_kind_line(kind_line(kind) + rest) == Some((kind, rest)),
{
    let tail = seq![10u8] + rest;
    assert(kind_line(kind) + rest =~= lit("kind: ") + (kind_word(kind) + tail));
    lemma_eat(lit("kind: "), kind_word(kind) + tail);
    lemma_read_kind(kind, tail);
    assert(tail.skip(1) =~= rest);
}

/// What stands before the name of an extended attribute, and of an entry.
pub open spec fn item_mark() -> Seq<u8> {
    lit("  ? ")
}

/// What stands between the name and the value of an extended attribute, and
/// of an entry.
pub open spec fn value_mark() -> Seq<u8> {
    lit("\n  : ")
}

/// An item begins with a blank.
pub proof fn lemma_item_mark()
    ensures
        item_mark().len() == 4,
        item_mark()[0] == 32u8,
{
    reveal_strlit("  ? ");
    assert(vstd::utf8::is_ascii_chars("  ? "@));
    vstd::utf8::is_ascii_chars_encode_utf8("  ? "@);
    assert(lit("  ? ")[0] == "  ? "@[0] as u8);
}

/// One extended attribute: its name and its value as lists of bytes.
pub open spec fn xattr_item(p: (Seq<u8>, Seq<u8>)) -> Seq<u8> {
    item_mark() + byte_list(p.0) + value_mark() + byte_list(p.1) + seq![10u8]
}

/// The extended attributes, one after the other.
pub open spec fn xattr_items(x: Seq<(Seq<u8>, Seq<u8>)>) -> Seq<u8>
    decreases x.len(),
{
    if x.len() == 0 {
        Seq::empty()
    } else {
        xattr_item(x[0]) + xattr_items(x.skip(1))
    }
}

/// The block of the extended attributes: `{}` where there are none.
pub open spec fn xattrs_block(x: Seq<(Seq<u8>, Seq<u8>)>) -> Seq<u8> {
    lit("xattrs:") + if x.len() == 0 {
        seq![32u8, 123u8, 125u8, 10u8]
    } else {
        seq![10u8] + xattr_items(x)
    }
}

/// A reader's result with `front` put before the pairs it read.
pub open spec fn pairs_preceded(
    front: Seq<(Seq<u8>, Seq<u8>)>,
    r: Option<(Seq<(Seq<u8>, Seq<u8>)>, Seq<u8>)>,
) -> Option<(Seq<(Seq<u8>, Seq<u8>)>, Seq<u8>)> {
    match r {
        Some((value, rest)) => Some((front + value, rest)),
        None => None,
    }
}

/// The pairs that a reader gave, or none where it failed.
pub open spec fn pairs_of(r: Option<(Seq<(Seq<u8>, Seq<u8>)>, Seq<u8>)>) -> Seq<(Seq<u8>, Seq<u8>)> {
    match r {
        Some((value, _)) => value,
        None => Seq::empty(),
    }
}

/// Reads one extended attribute.
pub open spec fn read_xattr_item(s: Seq<u8>) -> Option<((Seq<u8>, Seq<u8>), Seq<u8>)> {
    match eat(s, item_mark()) {
        Some(s1) => match read_byte_list(s1) {
            Some((name, s2)) => match eat(s2, value_mark()) {
                Some(s3) => match read_byte_list(s3) {
                    Some((value, s4)) => match eat_byte(s4, 10) {
                        Some(s5) => Some(((name, value), s5)),
                        None => None,
                    },
                    None => None,
                },
                None => None,
            },
            None => None,
        },
        None => None,
    }
}

/// Reads extended attributes for as long as the text begins with an item.
pub open spec fn read_xattr_items(s: Seq<u8>) -> Option<(Seq<(Seq<u8>, Seq<u8>)>, Seq<u8>)>
    decreases s.len(),
{
    if !starts_with(s, item_mark()) {
        Some((Seq::empty(), s))
    } else {
        match read_xattr_item(s) {
            Some((pair, rest)) => if rest.len() < s.len() {
                pairs_preceded(seq![pair], read_xattr_items(rest))
            } else {
                None
            },
            None => None,
        }
    }
}

/// Reads the block of the extended attributes.
pub open spec fn read_xattrs_block(s: Seq<u8>) -> Option<(Seq<(Seq<u8>, Seq<u8>)>, Seq<u8>)> {
    match eat(s, lit("xattrs:")) {
        Some(s1) => match eat_byte(s1, 10) {
            Some(s2) => read_xattr_items(s2),
            None => match eat(s1, seq![32u8, 123u8, 125u8, 10u8]) {
                Some(s2) => Some((Seq::empty(), s2)),
                None => None,
            },
        },
        None => None,
    }
}

/// One extended attribute is read back from in front of anything.
pub proof fn lemma_read_xattr_item(p: (Seq<u8>, Seq<u8>), rest: Seq<u8>)
    ensures
        read_xattr_item(xattr_item(p) + rest) == Some((p, rest)),
        xattr_item(p).len() > 0,
{
    let s5 = seq![10u8] + rest;
    let s4 = byte_list(p.1) + s5;
    let s3 = value_mark() + s4;
    let s2 = byte_list(p.0) + s3;
    assert(xattr_item(p) + rest =~= item_mark() + s2);
    lemma_eat(item_mark(), s2);
    lemma_read_byte_list(p.0, s3);
    lemma_eat(value_mark(), s4);
    lemma_read_byte_list(p.1, s5);
    assert(s5.skip(1) =~= rest);
}

/// Extended attributes are read back from in front of anything that does not
/// begin with a blank.
pub proof fn lemma_read_xattr_items(x: Seq<(Seq<u8>, Seq<u8>)>, rest: Seq<u8>)
    requires
        rest.len() == 0 || rest[0] != 32u8,
    ensures
        read_xattr_items(xattr_items(x) + rest) == Some((x, rest)),
    decreases x.len(),
{
    let s = xattr_items(x) + rest;
    lemma_item_mark();
    if x.len() == 0 {
        assert(s =~= rest);
        lemma_other_start(rest, item_mark());
    } else {
        let tail = xattr_items(x.skip(1)) + rest;
        assert(s =~= xattr_item(x[0]) + tail);
        assert(xattr_item(x[0]) + tail =~= item_mark() + (byte_list(x[0].0) + value_mark()
            + byte_list(x[0].1) + seq![10u8] + tail));
        lemma_eat(item_mark(), byte_list(x[0].0) + value_mark() + byte_list(x[0].1) + seq![10u8]
            + tail);
        lemma_read_xattr_item(x[0], tail);
        lemma_read_xattr_items(x.skip(1), rest);
        assert(seq![x[0]] + x.skip(1) =~= x);
    }
}

/// The block of the extended attributes is read back from in front of
/// anything that does not begin with a blank.
pub proof fn lemma_read_xattrs_block(x: Seq<(Seq<u8>, Seq<u8>)>, rest: Seq<u8>)
    requires
        rest.len() == 0 || rest[0] != 32u8,
    ensures
        read_xattrs_block(xattrs_block(x) + rest) == Some((x, rest)),
{
    let none = seq![32u8, 123u8, 125u8, 10u8];
    if x.len() == 0 {
        assert(xattrs_block(x) + rest =~= lit("xattrs:") + (none + rest));
        lemma_eat(lit("xattrs:"), none + rest);
        assert((none + rest)[0] == 32u8);
        lemma_eat(none, rest);
        assert(x =~= Seq::empty());
    } else {
        let items = xattr_items(x) + rest;
        assert(xattrs_block(x) + rest =~= lit("xattrs:") + (seq![10u8] + items));
        lemma_eat(lit("xattrs:"), seq![10u8] + items);
        assert((seq![10u8] + items).skip(1) =~= items);
        lemma_read_xattr_items(x, rest);
    }
}

/// The pairs of a list and one more pair are written as the list, then the
/// pair.
pub proof fn lemma_xattr_items_push(x: Seq<(Seq<u8>, Seq<u8>)>, p: (Seq<u8>, Seq<u8>))
    ensures
        xattr_items(x.push(p)) == xattr_items(x) + xattr_item(p),
    decreases x.len(),
{
    if x.len() == 0 {
        assert(x.push(p).skip(1) =~= Seq::empty());
        assert(xattr_items(x.push(p)) =~= xattr_item(p) + xattr_items(x.push(p).skip(1)));
        assert(xattr_items(x.push(p)) =~= xattr_items(x) + xattr_item(p));
    } else {
        lemma_xattr_items_push(x.skip(1), p);
        assert(x.push(p).skip(1) =~= x.skip(1).push(p));
        assert(xattr_items(x.push(p)) =~= xattr_items(x) + xattr_item(p));
    }
}

/// Appends the block of the extended attributes.
pub fn put_xattrs_block(buf: &mut Vec<u8>, x: &Vec<(Vec<u8>, Vec<u8>)>)
    ensures
        final(buf)@ == old(buf)@ + xattrs_block(pairs_view(x@)),
{
    put_word(buf, "xattrs:");
    if x.len() == 0 {
        buf.push(32u8);
        buf.push(123u8);
        buf.push(125u8);
        buf.push(10u8);
        assert(buf@ =~= old(buf)@ + xattrs_block(pairs_view(x@)));
        return ;
    }
    buf.push(10u8);
    let ghost start = buf@;
    let mut i: usize = 0;
    while i < x.len()
        invariant
            i <= x@.len(),
            buf@ == start + xattr_items(pairs_view(x@).take(i as int)),
        decreases x@.len() - i,
    {
        let ghost before = buf@;
        put_word(buf, "  ? ");
        put_byte_list(buf, x[i].0.as_slice());
        put_word(buf, "\n  : ");
        put_byte_list(buf, x[i].1.as_slice());
        buf.push(10u8);
        proof {
            let p = pair_view(x@[i as int]);
            assert(pairs_view(x@)[i as int] == p);
            assert(buf@ =~= before + xattr_item(p));
            lemma_xattr_items_push(pairs_view(x@).take(i as int), p);
            assert(pairs_view(x@).take(i + 1) =~= pairs_view(x@).take(i as int).push(p));
            assert(buf@ =~= start + xattr_items(pairs_view(x@).take(i + 1)));
        }
        i += 1;
    }
    proof {
        assert(pairs_view(x@).take(x@.len() as int) =~= pairs_view(x@));
        assert(buf@ =~= old(buf)@ + xattrs_block(pairs_view(x@)));
    }
}

/// Reads one extended attribute at `pos`.
fn take_xattr_item(b: &[u8], pos: usize) -> (r: Option<((Vec<u8>, Vec<u8>), usize)>)
    requires
        pos <= b@.len(),
    ensures
        match r {
            Some((pair, p)) => pos < p <= b@.len() && read_xattr_item(b@.skip(pos as int))
                == Some((pair_view(pair), b@.skip(p as int))),
            None => read_xattr_item(b@.skip(pos as int)) is None,
        },
{
    let at1 = match take_word(b, pos, "  ? ") {
        Some(p) => p,
        None => {
            return None;
        },
    };
    let (name, at2) = match take_byte_list(b, at1) {
        Some(found) => found,
        None => {
            return None;
        },
    };
    let at3 = match take_word(b, at2, "\n  : ") {
        Some(p) => p,
        None => {
            return None;
        },
    };
    let (value, at4) = match take_byte_list(b, at3) {
        Some(found) => found,
        None => {
            return None;
        },
    };
    match take_byte(b, at4, 10u8) {
        Some(at5) => Some(((name, value), at5)),
        None => None,
    }
}

/// Reads the block of the extended attributes at `pos`.
#[verifier::rlimit(50)]
pub fn take_xattrs_block(b: &[u8], pos: usize) -> (r: Option<(Vec<(Vec<u8>, Vec<u8>)>, usize)>)
    requires
        pos <= b@.len(),
    ensures
        match r {
            Some((x, p)) => pos <= p <= b@.len() && read_xattrs_block(b@.skip(pos as int))
                == Some((pairs_view(x@), b@.skip(p as int))),
            None => read_xattrs_block(b@.skip(pos as int)) is None,
        },
{
    let at1 = match take_word(b, pos, "xattrs:") {
        Some(p) => p,
        None => {
            return None;
        },
    };
    let mut out: Vec<(Vec<u8>, Vec<u8>)> = Vec::new();
    let start = match take_byte(b, at1, 10u8) {
        Some(p) => p,
        None => {
            assert(pairs_view(out@) =~= Seq::empty());
            return match take_byte(b, at1, 32u8) {
                Some(to1) => match take_byte(b, to1, 123u8) {
                    Some(to2) => match take_byte(b, to2, 125u8) {
                        Some(to3) => match take_byte(b, to3, 10u8) {
                            Some(to4) => {
                                proof {
                                    lemma_four(b@.skip(at1 as int), 32u8, 123u8, 125u8, 10u8);
                                    assert(b@.skip(at1 as int).skip(4) =~= b@.skip(to4 as int));
                                }
                                Some((out, to4))
                            },
                            None => {
                                proof {
                                    lemma_four(b@.skip(at1 as int), 32u8, 123u8, 125u8, 10u8);
                                }
                                None
                            },
                        },
                        None => {
                            proof {
                                lemma_four(b@.skip(at1 as int), 32u8, 123u8, 125u8, 10u8);
                            }
                            None
                        },
                    },
                    None => {
                        proof {
                            lemma_four(b@.skip(at1 as int), 32u8, 123u8, 125u8, 10u8);
                        }
                        None
                    },
                },
                None => {
                    proof {
                        lemma_four(b@.skip(at1 as int), 32u8, 123u8, 125u8, 10u8);
                    }
                    None
                },
            };
        },
    };
    let mut i: usize = start;
    assert(pairs_view(out@) =~= Seq::empty());
    proof {
        let all = read_xattr_items(b@.skip(start as int));
        if all is Some {
            assert(Seq::<(Seq<u8>, Seq<u8>)>::empty() + pairs_of(all) =~= pairs_of(all));
        }
    }
    loop
        invariant
            pos <= start <= i <= b@.len(),
            read_xattrs_block(b@.skip(pos as int)) == read_xattr_items(b@.skip(start as int)),
            read_xattr_items(b@.skip(start as int)) == pairs_preceded(
                pairs_view(out@),
                read_xattr_items(b@.skip(i as int)),
            ),
        decreases b@.len() - i,
    {
        let ghost done = pairs_view(out@);
        let ghost t = b@.skip(i as int);
        if take_word(b, i, "  ? ").is_none() {
            assert(done + Seq::<(Seq<u8>, Seq<u8>)>::empty() =~= done);
            return Some((out, i));
        }
        match take_xattr_item(b, i) {
            Some((pair, p)) => {
                let ghost pv = pair_view(pair);
                out.push(pair);
                i = p;
                proof {
                    assert(pairs_view(out@) =~= done.push(pv));
                    let next = read_xattr_items(b@.skip(i as int));
                    if next is Some {
                        assert(done + (seq![pv] + pairs_of(next)) =~= pairs_view(out@) + pairs_of(next));
                    }
                }
            },
            None => {
                return None;
            },
        }
    }
}

/// A text begins with four bytes where its first four bytes are those.
pub proof fn lemma_four(s: Seq<u8>, a: u8, b: u8, c: u8, d: u8)
    ensures
        starts_with(s, seq![a, b, c, d]) == (s.len() >= 4 && s[0] == a && s[1] == b && s[2] == c
            && s[3] == d),
{
    let word = seq![a, b, c, d];
    if s.len() >= 4 {
        if s[0] == a && s[1] == b && s[2] == c && s[3] == d {
            assert(s.take(4) =~= word);
        }
        if s.take(4) == word {
            assert(s.take(4)[0] == s[0] && s.take(4)[1] == s[1] && s.take(4)[2] == s[2]
                && s.take(4)[3] == s[3]);
        }
    }
}

/// Appends the line that holds the kind.
pub fn put_kind_line(buf: &mut Vec<u8>, kind: FileKind)
    ensures
        final(buf)@ == old(buf)@ + kind_line(kind),
{
    put_word(buf, "kind: ");
    put_kind(buf, kind);
    buf.push(10u8);
    assert(buf@ =~= old(buf)@ + kind_line(kind));
}

/// Reads the line that holds the kind at `pos`.
pub fn take_kind_line(b: &[u8], pos: usize) -> (r: Option<(FileKind, usize)>)
    requires
        pos <= b@.len(),
    ensures
        match r {
            Some((kind, p)) => pos < p <= b@.len() && read_kind_line(b@.skip(pos as int))
                == Some((kind, b@.skip(p as int))),
            None => read_kind_line(b@.skip(pos as int)) is None,
        },
{
    let at1 = match take_word(b, pos, "kind: ") {
        Some(p) => p,
        None => {
            return None;
        },
    };
    let (kind, at2) = match take_kind(b, at1) {
        Some(found) => found,
        None => {
            return None;
        },
    };
    match take_byte(b, at2, 10u8) {
        Some(at3) => Some((kind, at3)),
        None => None,
    }
}

/// The stored text of an inode's attributes.
pub open spec fn inode_text(a: InodeAttributesView) -> Seq<u8> {
    nat_line("inode: ", a.inode as nat) + nat_line(
        "open_file_handles: ",
        a.open_file_handles as nat,
    ) + nat_line("size: ", a.size as nat) + time_line("last_accessed: [", a.last_accessed)
        + time_line("last_modified: [", a.last_modified) + time_line(
        "last_metadata_changed: [",
        a.last_metadata_changed,
    ) + kind_line(a.kind) + nat_line("mode: ", a.mode as nat) + nat_line(
        "hardlinks: ",
        a.hardlinks as nat,
    ) + nat_line("uid: ", a.uid as nat) + nat_line("gid: ", a.gid as nat) + xattrs_block(a.xattrs)
}

/// The attributes that a stored text holds, where it is the text of
/// attributes whose extended attributes are in order.
pub open spec fn parse_inode(s: Seq<u8>) -> Option<InodeAttributesView> {
    let inode = read_nat_line("inode: ", u64::MAX as nat, s);
    let handles = read_nat_line("open_file_handles: ", u64::MAX as nat, rest_of(inode));
    let size = read_nat_line("size: ", u64::MAX as nat, rest_of(handles));
    let accessed = read_time_line("last_accessed: [", rest_of(size));
    let modified = read_time_line("last_modified: [", rest_of(accessed));
    let changed = read_time_line("last_metadata_changed: [", rest_of(modified));
    let kind = read_kind_line(rest_of(changed));
    let mode = read_nat_line("mode: ", u16::MAX as nat, rest_of(kind));
    let hardlinks = read_nat_line("hardlinks: ", u32::MAX as nat, rest_of(mode));
    let uid = read_nat_line("uid: ", u32::MAX as nat, rest_of(hardlinks));
    let gid = read_nat_line("gid: ", u32::MAX as nat, rest_of(uid));
    let xattrs = read_xattrs_block(rest_of(gid));
    if inode is Some && handles is Some && size is Some && accessed is Some && modified is Some
        && changed is Some && kind is Some && mode is Some && hardlinks is Some && uid is Some
        && gid is Some && xattrs is Some && rest_of(xattrs).len() == 0 && xattrs_sorted(
        value_in(xattrs),
    ) {
        Some(
            InodeAttributesView {
                inode: value_in(inode) as u64,
                open_file_handles: value_in(handles) as u64,
                size: value_in(size) as u64,
                last_accessed: value_in(accessed),
                last_modified: value_in(modified),
                last_metadata_changed: value_in(changed),
                kind: value_in(kind),
                mode: value_in(mode) as u16,
                hardlinks: value_in(hardlinks) as u32,
                uid: value_in(uid) as u32,
                gid: value_in(gid) as u32,
                xattrs: value_in(xattrs),
            },
        )
    } else {
        None
    }
}

/// The stored text of an inode's attributes, each line joined to all that
/// follow it.
pub open spec fn inode_text_nested(a: InodeAttributesView) -> Seq<u8> {
    nat_line("inode: ", a.inode as nat) + (nat_line(
        "open_file_handles: ",
        a.open_file_handles as nat,
    ) + (nat_line("size: ", a.size as nat) + (time_line("last_accessed: [", a.last_accessed) + (
    time_line("last_modified: [", a.last_modified) + (time_line(
        "last_metadata_changed: [",
        a.last_metadata_changed,
    ) + (kind_line(a.kind) + (nat_line("mode: ", a.mode as nat) + (nat_line(
        "hardlinks: ",
        a.hardlinks as nat,
    ) + (nat_line("uid: ", a.uid as nat) + (nat_line("gid: ", a.gid as nat) + (xattrs_block(
        a.xattrs,
    ) + Seq::<u8>::empty())))))))))))
}

proof fn lemma_inode_text_nested(a: InodeAttributesView)
    ensures
        inode_text(a) == inode_text_nested(a),
{
    let f1 = nat_line("inode: ", a.inode as nat);
    let f2 = nat_line("open_file_handles: ", a.open_file_handles as nat);
    let f3 = nat_line("size: ", a.size as nat);
    let f4 = time_line("last_accessed: [", a.last_accessed);
    let f5 = time_line("last_modified: [", a.last_modified);
    let f6 = time_line("last_metadata_changed: [", a.last_metadata_changed);
    let f7 = kind_line(a.kind);
    let f8 = nat_line("mode: ", a.mode as nat);
    let f9 = nat_line("hardlinks: ", a.hardlinks as nat);
    let f10 = nat_line("uid: ", a.uid as nat);
    let f11 = nat_line("gid: ", a.gid as nat);
    let f12 = xattrs_block(a.xattrs);
    let s13 = Seq::<u8>::empty();
    let s12 = f12 + s13;
    let s11 = f11 + s12;
    let s10 = f10 + s11;
    let s9 = f9 + s10;
    let s8 = f8 + s9;
    let s7 = f7 + s8;
    let s6 = f6 + s7;
    let s5 = f5 + s6;
    let s4 = f4 + s5;
    let s3 = f3 + s4;
    let s2 = f2 + s3;
    let t2 = f1 + f2;
    let t3 = t2 + f3;
    let t4 = t3 + f4;
    let t5 = t4 + f5;
    let t6 = t5 + f6;
    let t7 = t6 + f7;
    let t8 = t7 + f8;
    let t9 = t8 + f9;
    let t10 = t9 + f10;
    let t11 = t10 + f11;
    let t12 = t11 + f12;
    assert(t12 == t12 + s13) by {
        assert(t12 =~= t12 + s13);
    }
    lemma_join(t11, f12, s13);
    lemma_join(t10, f11, s12);
    lemma_join(t9, f10, s11);
    lemma_join(t8, f9, s10);
    lemma_join(t7, f8, s9);
    lemma_join(t6, f7, s8);
    lemma_join(t5, f6, s7);
    lemma_join(t4, f5, s6);
    lemma_join(t3, f4, s5);
    lemma_join(t2, f3, s4);
    lemma_join(f1, f2, s3);
}

/// The attributes of an inode, with its extended attributes in order, are
/// read back from their stored text.
#[verifier::rlimit(50)]
pub proof fn lemma_parse_inode(a: InodeAttributesView)
    requires
        a.wf(),
    ensures
        parse_inode(inode_text(a)) == Some(a),
{
    lemma_inode_text_nested(a);
    let s13 = Seq::<u8>::empty();
    let s12 = xattrs_block(a.xattrs) + s13;
    let s11 = nat_line("gid: ", a.gid as nat) + s12;
    let s10 = nat_line("uid: ", a.uid as nat) + s11;
    let s9 = nat_line("hardlinks: ", a.hardlinks as nat) + s10;
    let s8 = nat_line("mode: ", a.mode as nat) + s9;
    let s7 = kind_line(a.kind) + s8;
    let s6 = time_line("last_metadata_changed: [", a.last_metadata_changed) + s7;
    let s5 = time_line("last_modified: [", a.last_modified) + s6;
    let s4 = time_line("last_accessed: [", a.last_accessed) + s5;
    let s3 = nat_line("size: ", a.size as nat) + s4;
    let s2 = nat_line("open_file_handles: ", a.open_file_handles as nat) + s3;
    lemma_read_nat_line("inode: ", a.inode as nat, u64::MAX as nat, s2);
    lemma_read_nat_line("open_file_handles: ", a.open_file_handles as nat, u64::MAX as nat, s3);
    lemma_read_nat_line("size: ", a.size as nat, u64::MAX as nat, s4);
    lemma_read_time_line("last_accessed: [", a.last_accessed, s5);
    lemma_read_time_line("last_modified: [", a.last_modified, s6);
    lemma_read_time_line("last_metadata_changed: [", a.last_metadata_changed, s7);
    lemma_read_kind_line(a.kind, s8);
    lemma_read_nat_line("mode: ", a.mode as nat, u16::MAX as nat, s9);
    lemma_read_nat_line("hardlinks: ", a.hardlinks as nat, u32::MAX as nat, s10);
    lemma_read_nat_line("uid: ", a.uid as nat, u32::MAX as nat, s11);
    lemma_read_nat_line("gid: ", a.gid as nat, u32::MAX as nat, s12);
    lemma_read_xattrs_block(a.xattrs, s13);
}

/// The stored text of an inode's attributes.
pub fn encode_inode(a: &InodeAttributes) -> (bytes: Vec<u8>)
    ensures
        bytes@ == inode_text(a@),
        a@.wf() ==> parse_inode(bytes@) == Some(a@),
{
    let mut buf: Vec<u8> = Vec::new();
    put_nat_line(&mut buf, "inode: ", a.inode);
    put_nat_line(&mut buf, "open_file_handles: ", a.open_file_handles);
    put_nat_line(&mut buf, "size: ", a.size);
    put_time_line(&mut buf, "last_accessed: [", a.last_accessed);
    put_time_line(&mut buf, "last_modified: [", a.last_modified);
    put_time_line(&mut buf, "last_metadata_changed: [", a.last_metadata_changed);
    put_kind_line(&mut buf, a.kind);
    put_nat_line(&mut buf, "mode: ", a.mode as u64);
    put_nat_line(&mut buf, "hardlinks: ", a.hardlinks as u64);
    put_nat_line(&mut buf, "uid: ", a.uid as u64);
    put_nat_line(&mut buf, "gid: ", a.gid as u64);
    put_xattrs_block(&mut buf, &a.xattrs);
    proof {
        assert(Seq::<u8>::empty() + nat_line("inode: ", a.inode as nat) =~= nat_line(
            "inode: ",
            a.inode as nat,
        ));
        if a@.wf() {
            lemma_parse_inode(a@);
        }
    }
    buf
}

/// Whether each pair stands before the next.
pub open spec fn stepwise_ordered(x: Seq<(Seq<u8>, Seq<u8>)>, upto: int) -> bool {
    forall|i: int| 0 <= i && i + 1 < upto ==> lex_lt((#[trigger] x[i]).0, x[i + 1].0)
}

/// Pairs of which each stands before the next are in order.
pub proof fn lemma_stepwise_ordered(x: Seq<(Seq<u8>, Seq<u8>)>, i: int, j: int)
    requires
        stepwise_ordered(x, x.len() as int),
        0 <= i < j < x.len(),
    ensures
        lex_lt(x[i].0, x[j].0),
    decreases j - i,
{
    if i + 1 < j {
        lemma_stepwise_ordered(x, i, j - 1);
        assert(lex_lt(x[j - 1].0, x[j - 1 + 1].0));
        lemma_lex_transitive(x[i].0, x[j - 1].0, x[j].0);
    }
}

/// Whether the pairs are in the strict order of their names.
pub fn pairs_sorted(x: &Vec<(Vec<u8>, Vec<u8>)>) -> (r: bool)
    ensures
        r == xattrs_sorted(pairs_view(x@)),
{
    let ghost view = pairs_view(x@);
    let mut i: usize = 1;
    while i < x.len()
        invariant
            1 <= i,
            view == pairs_view(x@),
            stepwise_ordered(view, i as int),
        decreases x@.len() - i,
    {
        assert(view[i - 1] == pair_view(x@[i - 1]));
        assert(view[i as int] == pair_view(x@[i as int]));
        if !matches!(bytes_rank(x[i - 1].0.as_slice(), x[i].0.as_slice()), Rank::Before) {
            proof {
                lemma_lex_irreflexive(view[i as int].0);
            }
            return false;
        }
        i += 1;
    }
    proof {
        assert forall|a: int, c: int| 0 <= a < c < view.len() implies lex_lt(
            (#[trigger] view[a]).0,
            (#[trigger] view[c]).0,
        ) by {
            lemma_stepwise_ordered(view, a, c);
        }
    }
    true
}

/// The attributes that a stored text holds, where it is the text of any.
#[verifier::rlimit(50)]
pub fn decode_inode(b: &[u8]) -> (r: Option<InodeAttributes>)
    ensures
        match r {
            Some(a) => parse_inode(b@) == Some(a@) && a@.wf(),
            None => parse_inode(b@) is None,
        },
{
    assert(b@.skip(0) =~= b@);
    let (inode, at1) = match take_nat_line(b, 0, "inode: ", u64::MAX) {
        Some(found) => found,
        None => {
            return None;
        },
    };
    let (open_file_handles, at2) = match take_nat_line(b, at1, "open_file_handles: ", u64::MAX) {
        Some(found) => found,
        None => {
            return None;
        },
    };
    let (size, at3) = match take_nat_line(b, at2, "size: ", u64::MAX) {
        Some(found) => found,
        None => {
            return None;
        },
    };
    let (last_accessed, at4) = match take_time_line(b, at3, "last_accessed: [") {
        Some(found) => found,
        None => {
            return None;
        },
    };
    let (last_modified, at5) = match take_time_line(b, at4, "last_modified: [") {
        Some(found) => found,
        None => {
            return None;
        },
    };
    let (last_metadata_changed, at6) = match take_time_line(b, at5, "last_metadata_changed: [") {
        Some(found) => found,
        None => {
            return None;
        },
    };
    let (kind, at7) = match take_kind_line(b, at6) {
        Some(found) => found,
        None => {
            return None;
        },
    };
    let (mode, at8) = match take_nat_line(b, at7, "mode: ", 0xffffu64) {
        Some(found) => found,
        None => {
            return None;
        },
    };
    let (hardlinks, at9) = match take_nat_line(b, at8, "hardlinks: ", 0xffff_ffffu64) {
        Some(found) => found,
        None => {
            return None;
        },
    };
    let (uid, at10) = match take_nat_line(b, at9, "uid: ", 0xffff_ffffu64) {
        Some(found) => found,
        None => {
            return None;
        },
    };
    let (gid, at11) = match take_nat_line(b, at10, "gid: ", 0xffff_ffffu64) {
        Some(found) => found,
        None => {
            return None;
        },
    };
    let (xattrs, at12) = match take_xattrs_block(b, at11) {
        Some(found) => found,
        None => {
            return None;
        },
    };
    if at12 != b.len() || !pairs_sorted(&xattrs) {
        return None;
    }
    Some(
        InodeAttributes {
            inode,
            open_file_handles,
            size,
            last_accessed,
            last_modified,
            last_metadata_changed,
            kind,
            mode: mode as u16,
            hardlinks: hardlinks as u32,
            uid: uid as u32,
            gid: gid as u32,
            xattrs,
        },
    )
}

} // verus!
