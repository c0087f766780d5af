//! The stored text of a directory record: its parent, its entries as a
//! block, and its name.
//!
//! The text is a YAML mapping. Names stand in double quotes with a quote, a
//! backslash and the control characters escaped; an entry binds its name to
//! the pair `[kind, inode]`.
use vstd::prelude::*;
use vstd::string::StringSliceAdditionalSpecFns;
use vstd::utf8::{decode_utf8, encode_utf8_decode_utf8, encode_utf8_valid_utf8, valid_utf8};
use crate::fuse::dentry::{
    bytes_rank, entries_view, lemma_lex_transitive, lex_lt, name_key, sorted, DentryAttributes,
    DentryAttributesView, Entry, EntryView, Rank,
};
use crate::fuse::inode_text::{
    item_mark, kind_word, lemma_four, lemma_item_mark, lemma_read_kind, put_kind, read_kind,
    take_kind, value_mark,
};
use crate::fuse::lines::{
    eat_byte, lemma_read_nat_line, nat_line, put_nat_line, read_nat_line, take_byte,
    take_nat_line, take_pair,
};
use crate::fuse::quoted::{lemma_read_quoted, put_quoted, quoted, read_quoted, take_quoted};
use crate::fuse::text::{
    dec, eat, lemma_eat, lemma_join, lemma_other_start, lemma_read_nat, lit, put_nat, put_word,
    read_nat, rest_of, starts_with, take_nat, take_word, value_in,
};

verus! {

/// `String::from_utf8`: the string that the bytes spell, where they are
/// well-formed UTF-8, and nothing where they are not.
#[verifier::external_body]
pub(crate) fn string_from_utf8(bytes: Vec<u8>) -> (r: Option<String>)
    ensures
        r is Some <==> valid_utf8(bytes@),
        r matches Some(s) ==> s@ == decode_utf8(bytes@),
{
    String::from_utf8(bytes).ok()
}

/// A name in double quotes.
pub open spec fn name_text(name: Seq<char>) -> Seq<u8> {
    quoted(name_key(name))
}

/// Reads a name in double quotes.
pub open spec fn read_name(s: Seq<u8>) -> Option<(Seq<char>, Seq<u8>)> {
    match read_quoted(s) {
        Some((bytes, rest)) => if valid_utf8(bytes) {
            Some((decode_utf8(bytes), rest))
        } else {
            None
        },
        None => None,
    }
}

/// A name is read back from in front of anything.
pub proof fn lemma_read_name(name: Seq<char>, rest: Seq<u8>)
    ensures
        read_name(name_text(name) + rest) == Some((name, rest)),
{
    lemma_read_quoted(name_key(name), rest);
    encode_utf8_valid_utf8(name);
    encode_utf8_decode_utf8(name);
}

/// Appends a name in double quotes.
pub fn put_name(buf: &mut Vec<u8>, name: &str)
    ensures
        final(buf)@ == old(buf)@ + name_text(name@),
{
    put_quoted(buf, name.as_bytes());
}

/// Reads a name in double quotes at `pos`.
pub fn take_name(b: &[u8], pos: usize) -> (r: Option<(String, usize)>)
    requires
        pos <= b@.len(),
    ensures
        match r {
            Some((name, p)) => pos < p <= b@.len() && read_name(b@.skip(pos as int)) == Some(
                (name@, b@.skip(p as int)),
            ),
            None => read_name(b@.skip(pos as int)) is None,
        },
{
    match take_quoted(b, pos) {
        Some((bytes, p)) => match string_from_utf8(bytes) {
            Some(name) => Some((name, p)),
            None => None,
        },
        None => None,
    }
}

/// The line that holds the directory's own name.
pub open spec fn name_line(name: Seq<char>) -> Seq<u8> {
    lit("name: ") + name_text(name) + seq![10u8]
}

/// Reads the line that holds the directory's own name.
pub open spec fn read_name_line(s: Seq<u8>) -> Option<(Seq<char>, Seq<u8>)> {
    match eat(s, lit("name: ")) {
        Some(s1) => match read_name(s1) {
            Some((name, s2)) => match eat_byte(s2, 10) {
                Some(s3) => Some((name, s3)),
                None => None,
            },
            None => None,
        },
        None => None,
    }
}

/// The line of the name begins with a letter.
pub proof fn lemma_name_key_word()
    ensures
        lit("name: ").len() == 6,
        lit("name: ")[0] == 110u8,
{
    reveal_strlit("name: ");
    assert(vstd::utf8::is_ascii_chars("name: "@));
    vstd::utf8::is_ascii_chars_encode_utf8("name: "@);
    assert(lit("name: ")[0] == "name: "@[0] as u8);
}

/// The line of the name is read back from in front of anything.
pub proof fn lemma_read_name_line(name: Seq<char>, rest: Seq<u8>)
    ensures
        read_name_line(name_line(name) + rest) == Some((name, rest)),
{
    let tail = seq![10u8] + rest;
    assert(name_line(name) + rest =~= lit("name: ") + (name_text(name) + tail));
    lemma_eat(lit("name: "), name_text(name) + tail);
    lemma_read_name(name, tail);
    assert(tail.skip(1) =~= rest);
}

/// One entry: its name, and its kind and inode as a pair.
pub open spec fn entry_item(e: EntryView) -> Seq<u8> {
    item_mark() + name_text(e.name) + value_mark() + seq![91u8] + kind_word(e.kind) + seq![
        44u8,
        32u8,
    ] + dec(e.inode as nat) + seq![93u8, 10u8]
}

/// The entries, one after the other.
pub open spec fn entry_items(es: Seq<EntryView>) -> Seq<u8>
    decreases es.len(),
{
    if es.len() == 0 {
        Seq::empty()
    } else {
        entry_item(es[0]) + entry_items(es.skip(1))
    }
}

/// The block of the entries: `{}` where there are none.
pub open spec fn entries_block(es: Seq<EntryView>) -> Seq<u8> {
    lit("entries:") + if es.len() == 0 {
        seq![32u8, 123u8, 125u8, 10u8]
    } else {
        seq![10u8] + entry_items(es)
    }
}

/// Reads one entry.
pub open spec fn read_entry_item(s: Seq<u8>) -> Option<(EntryView, Seq<u8>)> {
    let mark = eat(s, item_mark());
    let name = if mark is Some {
        read_name(mark->0)
    } else {
        None
    };
    let value = eat(rest_of(name), value_mark());
    let open = if value is Some {
        eat_byte(value->0, 91)
    } else {
        None
    };
    let kind = if open is Some {
        read_kind(open->0)
    } else {
        None
    };
    let comma = eat(rest_of(kind), seq![44u8, 32u8]);
    let inode = if comma is Some {
        read_nat(comma->0, u64::MAX as nat)
    } else {
        None
    };
    let close = eat(rest_of(inode), seq![93u8, 10u8]);
    if name is Some && kind is Some && inode is Some && close is Some {
        Some(
            (
                EntryView {
                    name: value_in(name),
                    kind: value_in(kind),
                    inode: value_in(inode) as u64,
                },
                close->0,
            ),
        )
    } else {
        None
    }
}

/// A reader's result with `front` put before the entries it read.
pub open spec fn entries_preceded(
    front: Seq<EntryView>,
    r: Option<(Seq<EntryView>, Seq<u8>)>,
) -> Option<(Seq<EntryView>, Seq<u8>)> {
    match r {
        Some((value, rest)) => Some((front + value, rest)),
        None => None,
    }
}

/// Reads entries for as long as the text begins with an item.
pub open spec fn read_entry_items(s: Seq<u8>) -> Option<(Seq<EntryView>, Seq<u8>)>
    decreases s.len(),
{
    if !starts_with(s, item_mark()) {
        Some((Seq::empty(), s))
    } else {
        match read_entry_item(s) {
            Some((entry, rest)) => if rest.len() < s.len() {
                entries_preceded(seq![entry], read_entry_items(rest))
            } else {
                None
            },
            None => None,
        }
    }
}

/// Reads the block of the entries.
pub open spec fn read_entries_block(s: Seq<u8>) -> Option<(Seq<EntryView>, Seq<u8>)> {
    match eat(s, lit("entries:")) {
        Some(s1) => match eat_byte(s1, 10) {
            Some(s2) => read_entry_items(s2),
            None => match eat(s1, seq![32u8, 123u8, 125u8, 10u8]) {
                Some(s2) => Some((Seq::empty(), s2)),
                None => None,
            },
        },
        None => None,
    }
}

/// One entry is read back from in front of anything.
#[verifier::rlimit(50)]
pub proof fn lemma_read_entry_item(e: EntryView, rest: Seq<u8>)
    ensures
        read_entry_item(entry_item(e) + rest) == Some((e, rest)),
        starts_with(entry_item(e) + rest, item_mark()),
        entry_item(e).len() > 0,
{
    let s8 = seq![93u8, 10u8] + rest;
    let s7 = dec(e.inode as nat) + s8;
    let s6 = seq![44u8, 32u8] + s7;
    let s5 = kind_word(e.kind) + s6;
    let s4 = seq![91u8] + s5;
    let s3 = value_mark() + s4;
    let s2 = name_text(e.name) + s3;
    assert(entry_item(e) + rest =~= item_mark() + s2);
    lemma_item_mark();
    lemma_eat(item_mark(), s2);
    lemma_read_name(e.name, s3);
    lemma_eat(value_mark(), s4);
    assert(s4[0] == 91u8);
    assert(s4.skip(1) =~= s5);
    lemma_read_kind(e.kind, s6);
    lemma_eat(seq![44u8, 32u8], s7);
    assert(s8[0] == 93u8);
    lemma_read_nat(e.inode as nat, u64::MAX as nat, s8);
    lemma_eat(seq![93u8, 10u8], rest);
}

/// Entries are read back from in front of anything that does not begin with
/// a blank.
pub proof fn lemma_read_entry_items(es: Seq<EntryView>, rest: Seq<u8>)
    requires
        rest.len() == 0 || rest[0] != 32u8,
    ensures
        read_entry_items(entry_items(es) + rest) == Some((es, rest)),
    decreases es.len(),
{
    let s = entry_items(es) + rest;
    lemma_item_mark();
    if es.len() == 0 {
        assert(s =~= rest);
        lemma_other_start(rest, item_mark());
    } else {
        let tail = entry_items(es.skip(1)) + rest;
        assert(s =~= entry_item(es[0]) + tail);
        lemma_read_entry_item(es[0], tail);
        lemma_read_entry_items(es.skip(1), rest);
        assert(seq![es[0]] + es.skip(1) =~= es);
    }
}

/// The block of the entries is read back from in front of anything that does
/// not begin with a blank.
pub proof fn lemma_read_entries_block(es: Seq<EntryView>, rest: Seq<u8>)
    requires
        rest.len() == 0 || rest[0] != 32u8,
    ensures
        read_entries_block(entries_block(es) + rest) == Some((es, rest)),
{
    let none = seq![32u8, 123u8, 125u8, 10u8];
    if es.len() == 0 {
        assert(entries_block(es) + rest =~= lit("entries:") + (none + rest));
        lemma_eat(lit("entries:"), none + rest);
        assert((none + rest)[0] == 32u8);
        lemma_eat(none, rest);
        assert(es =~= Seq::empty());
    } else {
        let items = entry_items(es) + rest;
        assert(entries_block(es) + rest =~= lit("entries:") + (seq![10u8] + items));
        lemma_eat(lit("entries:"), seq![10u8] + items);
        assert((seq![10u8] + items).skip(1) =~= items);
        lemma_read_entry_items(es, rest);
    }
}

/// The entries of a list and one more entry are written as the list, then
/// the entry.
pub proof fn lemma_entry_items_push(es: Seq<EntryView>, e: EntryView)
    ensures
        entry_items(es.push(e)) == entry_items(es) + entry_item(e),
    decreases es.len(),
{
    if es.len() == 0 {
        assert(es.push(e).skip(1) =~= Seq::empty());
        assert(entry_items(es.push(e)) =~= entry_item(e) + entry_items(es.push(e).skip(1)));
        assert(entry_items(es.push(e)) =~= entry_items(es) + entry_item(e));
    } else {
        lemma_entry_items_push(es.skip(1), e);
        assert(es.push(e).skip(1) =~= es.skip(1).push(e));
        assert(entry_items(es.push(e)) =~= entry_items(es) + entry_item(e));
    }
}

/// Appends the block of the entries.
pub fn put_entries_block(buf: &mut Vec<u8>, es: &Vec<Entry>)
    ensures
        final(buf)@ == old(buf)@ + entries_block(entries_view(es@)),
{
    put_word(buf, "entries:");
    if es.len() == 0 {
        buf.push(32u8);
        buf.push(123u8);
        buf.push(125u8);
        buf.push(10u8);
        assert(buf@ =~= old(buf)@ + entries_block(entries_view(es@)));
        return ;
    }
    buf.push(10u8);
    let ghost start = buf@;
    let mut i: usize = 0;
    while i < es.len()
        invariant
            i <= es@.len(),
            buf@ == start + entry_items(entries_view(es@).take(i as int)),
        decreases es@.len() - i,
    {
        let ghost before = buf@;
        put_word(buf, "  ? ");
        put_name(buf, es[i].name.as_str());
        put_word(buf, "\n  : ");
        buf.push(91u8);
        put_kind(buf, es[i].kind);
        buf.push(44u8);
        buf.push(32u8);
        put_nat(buf, es[i].inode);
        buf.push(93u8);
        buf.push(10u8);
        proof {
            let e = es@[i as int]@;
            assert(entries_view(es@)[i as int] == e);
            assert(buf@ =~= before + entry_item(e));
            lemma_entry_items_push(entries_view(es@).take(i as int), e);
            assert(entries_view(es@).take(i + 1) =~= entries_view(es@).take(i as int).push(e));
            assert(buf@ =~= start + entry_items(entries_view(es@).take(i + 1)));
        }
        i += 1;
    }
    proof {
        assert(entries_view(es@).take(es@.len() as int) =~= entries_view(es@));
        assert(buf@ =~= old(buf)@ + entries_block(entries_view(es@)));
    }
}

/// Reads one entry at `pos`.
fn take_entry_item(b: &[u8], pos: usize) -> (r: Option<(Entry, usize)>)
    requires
        pos <= b@.len(),
    ensures
        match r {
            Some((entry, p)) => pos < p <= b@.len() && read_entry_item(b@.skip(pos as int))
                == Some((entry@, b@.skip(p as int))),
            None => read_entry_item(b@.skip(pos as int)) is None,
        },
{
    let at1 = match take_word(b, pos, "  ? ") {
        Some(p) => p,
        None => {
            return None;
        },
    };
    let (name, at2) = match take_name(b, at1) {
        Some(found) => found,
        None => {
            return None;
        },
    };
    let at3 = match take_word(b, at2, "\n  : ") {
        Some(p) => p,
        None => {
            return None;
        },
    };
    let at4 = match take_byte(b, at3, 91u8) {
        Some(p) => p,
        None => {
            return None;
        },
    };
    let (kind, at5) = match take_kind(b, at4) {
        Some(found) => found,
        None => {
            return None;
        },
    };
    let at6 = match take_pair(b, at5, 44u8, 32u8) {
        Some(p) => p,
        None => {
            return None;
        },
    };
    let (inode, at7) = match take_nat(b, at6, u64::MAX) {
        Some(found) => found,
        None => {
            return None;
        },
    };
    match take_pair(b, at7, 93u8, 10u8) {
        Some(at8) => Some((Entry { name, kind, inode }, at8)),
        None => None,
    }
}

/// The entries that a reader gave, or none where it failed.
pub open spec fn entries_of(r: Option<(Seq<EntryView>, Seq<u8>)>) -> Seq<EntryView> {
    match r {
        Some((value, _)) => value,
        None => Seq::empty(),
    }
}

/// Reads the block of the entries at `pos`.
#[verifier::rlimit(50)]
pub fn take_entries_block(b: &[u8], pos: usize) -> (r: Option<(Vec<Entry>, usize)>)
    requires
        pos <= b@.len(),
    ensures
        match r {
            Some((es, p)) => pos <= p <= b@.len() && read_entries_block(b@.skip(pos as int))
                == Some((entries_view(es@), b@.skip(p as int))),
            None => read_entries_block(b@.skip(pos as int)) is None,
        },
{
    let at1 = match take_word(b, pos, "entries:") {
        Some(p) => p,
        None => {
            return None;
        },
    };
    let mut out: Vec<Entry> = Vec::new();
    assert(entries_view(out@) =~= Seq::empty());
    let start = match take_byte(b, at1, 10u8) {
        Some(p) => p,
        None => {
            proof {
                lemma_four(b@.skip(at1 as int), 32u8, 123u8, 125u8, 10u8);
            }
            if b.len() - at1 >= 4 && b[at1] == 32u8 && b[at1 + 1] == 123u8 && b[at1 + 2] == 125u8
                && b[at1 + 3] == 10u8 {
                assert(b@.skip(at1 as int).skip(4) =~= b@.skip(at1 + 4));
                return Some((out, at1 + 4));
            } else {
                proof {
                    let t = b@.skip(at1 as int);
                    if t.len() >= 4 {
                        assert(t[0] == b@[at1 as int] && t[1] == b@[at1 + 1] && t[2] == b@[at1 + 2]
                            && t[3] == b@[at1 + 3]);
                    }
                }
                return None;
            }
        },
    };
    let mut i: usize = start;
    proof {
        let all = read_entry_items(b@.skip(start as int));
        if all is Some {
            assert(Seq::<EntryView>::empty() + entries_of(all) =~= entries_of(all));
        }
    }
    loop
        invariant
            pos <= start <= i <= b@.len(),
            read_entries_block(b@.skip(pos as int)) == read_entry_items(b@.skip(start as int)),
            read_entry_items(b@.skip(start as int)) == entries_preceded(
                entries_view(out@),
                read_entry_items(b@.skip(i as int)),
            ),
        decreases b@.len() - i,
    {
        let ghost done = entries_view(out@);
        if take_word(b, i, "  ? ").is_none() {
            assert(done + Seq::<EntryView>::empty() =~= done);
            return Some((out, i));
        }
        match take_entry_item(b, i) {
            Some((entry, p)) => {
                let ghost ev = entry@;
                out.push(entry);
                i = p;
                proof {
                    assert(entries_view(out@) =~= done.push(ev));
                    let next = read_entry_items(b@.skip(i as int));
                    if next is Some {
                        assert(done + (seq![ev] + entries_of(next)) =~= entries_view(out@)
                            + entries_of(next));
                    }
                }
            },
            None => {
                return None;
            },
        }
    }
}

/// Whether each entry stands before the next.
pub open spec fn stepwise_sorted(es: Seq<EntryView>, upto: int) -> bool {
    forall|i: int|
        0 <= i && i + 1 < upto ==> lex_lt(
            name_key(#[trigger] es[i].name),
            name_key(es[i + 1].name),
        )
}

/// Entries of which each stands before the next are in order.
pub proof fn lemma_stepwise_sorted(es: Seq<EntryView>, i: int, j: int)
    requires
        stepwise_sorted(es, es.len() as int),
        0 <= i < j < es.len(),
    ensures
        lex_lt(name_key(es[i].name), name_key(es[j].name)),
    decreases j - i,
{
    if i + 1 < j {
        lemma_stepwise_sorted(es, i, j - 1);
        assert(lex_lt(name_key(es[j - 1].name), name_key(es[j - 1 + 1].name)));
        lemma_lex_transitive(
            name_key(es[i].name),
            name_key(es[j - 1].name),
            name_key(es[j].name),
        );
    }
}

/// Whether the entries are in the strict order of their names.
pub fn entries_sorted(es: &Vec<Entry>) -> (r: bool)
    ensures
        r == sorted(entries_view(es@)),
{
    let ghost view = entries_view(es@);
    let mut i: usize = 1;
    while i < es.len()
        invariant
            1 <= i,
            view == entries_view(es@),
            stepwise_sorted(view, i as int),
        decreases es@.len() - i,
    {
        assert(view[i - 1].name == es@[i - 1].name@);
        assert(view[i as int].name == es@[i as int].name@);
        if !matches!(
            bytes_rank(es[i - 1].name.as_str().as_bytes(), es[i].name.as_str().as_bytes()),
            Rank::Before
        ) {
            proof {
                crate::fuse::dentry::lemma_lex_irreflexive(name_key(view[i as int].name));
            }
            return false;
        }
        i += 1;
    }
    proof {
        assert forall|a: int, c: int| 0 <= a < c < view.len() implies lex_lt(
            name_key(#[trigger] view[a].name),
            name_key(#[trigger] view[c].name),
        ) by {
            lemma_stepwise_sorted(view, a, c);
        }
    }
    true
}

/// The stored text of a directory record.
pub open spec fn dentry_text(d: DentryAttributesView) -> Seq<u8> {
    nat_line("parent: ", d.parent as nat) + entries_block(d.entries) + name_line(d.name)
}

/// The directory record that a stored text holds, where it is the text of
/// one whose entries are in order.
pub open spec fn parse_dentry(s: Seq<u8>) -> Option<DentryAttributesView> {
    let parent = read_nat_line("parent: ", u64::MAX as nat, s);
    let entries = read_entries_block(rest_of(parent));
    let name = read_name_line(rest_of(entries));
    if parent is Some && entries is Some && name is Some && rest_of(name).len() == 0 && sorted(
        value_in(entries),
    ) {
        Some(
            DentryAttributesView {
                parent: value_in(parent) as u64,
                entries: value_in(entries),
                name: value_in(name),
            },
        )
    } else {
        None
    }
}

/// A directory record whose entries are in order is read back from its
/// stored text.
pub proof fn lemma_parse_dentry(d: DentryAttributesView)
    requires
        d.wf(),
    ensures
        parse_dentry(dentry_text(d)) == Some(d),
{
    let s4 = Seq::<u8>::empty();
    let s3 = name_line(d.name) + s4;
    let s2 = entries_block(d.entries) + s3;
    assert(s3 =~= name_line(d.name));
    lemma_join(nat_line("parent: ", d.parent as nat), entries_block(d.entries), name_line(d.name));
    lemma_read_nat_line("parent: ", d.parent as nat, u64::MAX as nat, s2);
    lemma_name_key_word();
    assert(s3[0] == lit("name: ")[0]);
    lemma_read_entries_block(d.entries, s3);
    lemma_read_name_line(d.name, s4);
}

/// The stored text of a directory record.
pub fn encode_dentry(d: &DentryAttributes) -> (bytes: Vec<u8>)
    ensures
        bytes@ == dentry_text(d@),
        d@.wf() ==> parse_dentry(bytes@) == Some(d@),
{
    let mut buf: Vec<u8> = Vec::new();
    put_nat_line(&mut buf, "parent: ", d.parent);
    put_entries_block(&mut buf, &d.entries);
    put_word(&mut buf, "name: ");
    put_name(&mut buf, d.name.as_str());
    buf.push(10u8);
    proof {
        assert(buf@ =~= dentry_text(d@));
        if d@.wf() {
            lemma_parse_dentry(d@);
        }
    }
    buf
}

/// The directory record that a stored text holds, where it is the text of
/// one whose entries are in order.
#[verifier::rlimit(50)]
pub fn decode_dentry(b: &[u8]) -> (r: Option<DentryAttributes>)
    ensures
        match r {
            Some(d) => parse_dentry(b@) == Some(d@) && d@.wf(),
            None => parse_dentry(b@) is None,
        },
{
    assert(b@.skip(0) =~= b@);
    let (parent, at1) = match take_nat_line(b, 0, "parent: ", u64::MAX) {
        Some(found) => found,
        None => {
            return None;
        },
    };
    let (entries, at2) = match take_entries_block(b, at1) {
        Some(found) => found,
        None => {
            return None;
        },
    };
    let at3 = match take_word(b, at2, "name: ") {
        Some(p) => p,
        None => {
            return None;
        },
    };
    let (name, at4) = match take_name(b, at3) {
        Some(found) => found,
        None => {
            return None;
        },
    };
    let at5 = match take_byte(b, at4, 10u8) {
        Some(p) => p,
        None => {
            return None;
        },
    };
    if at5 != b.len() || !entries_sorted(&entries) {
        return None;
    }
    Some(DentryAttributes { parent, entries, name })
}

} // verus!
