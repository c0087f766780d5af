//! The entries of a directory: names bound to a kind and an inode, kept in
//! the order of the names' bytes.
use vstd::prelude::*;
use vstd::string::StringSliceAdditionalSpecFns;
use vstd::utf8::{encode_utf8, encode_utf8_decode_utf8};
use crate::fuse::attrs::FileKind;

verus! {

/// Whether `a` comes before `b` in the order of byte strings: byte by byte,
/// a proper prefix first.
pub open spec fn lex_lt(a: Seq<u8>, b: Seq<u8>) -> bool
    decreases a.len(),
{
    if b.len() == 0 {
        false
    } else if a.len() == 0 {
        true
    } else if a[0] != b[0] {
        a[0] < b[0]
    } else {
        lex_lt(a.skip(1), b.skip(1))
    }
}

/// No byte string comes before itself.
pub proof fn lemma_lex_irreflexive(a: Seq<u8>)
    ensures
        !lex_lt(a, a),
    decreases a.len(),
{
    if a.len() > 0 {
        lemma_lex_irreflexive(a.skip(1));
    }
}

/// The order of byte strings is transitive.
pub proof fn lemma_lex_transitive(a: Seq<u8>, b: Seq<u8>, c: Seq<u8>)
    requires
        lex_lt(a, b),
        lex_lt(b, c),
    ensures
        lex_lt(a, c),
    decreases a.len(),
{
    if a.len() > 0 && a[0] == b[0] && b[0] == c[0] {
        lemma_lex_transitive(a.skip(1), b.skip(1), c.skip(1));
    }
}

/// Of two different byte strings one comes before the other.
pub proof fn lemma_lex_total(a: Seq<u8>, b: Seq<u8>)
    ensures
        a == b || lex_lt(a, b) || lex_lt(b, a),
    decreases a.len(),
{
    if a.len() > 0 && b.len() > 0 && a[0] == b[0] {
        lemma_lex_total(a.skip(1), b.skip(1));
        if a.skip(1) == b.skip(1) {
            assert(a =~= seq![a[0]] + a.skip(1));
            assert(b =~= seq![b[0]] + b.skip(1));
        }
    } else if a.len() == 0 && b.len() == 0 {
        assert(a =~= b);
    }
}

/// Where one byte string stands to another.
#[derive(Copy, Clone, PartialEq, Eq, Debug, Structural)]
pub enum Rank {
    Before,
    Same,
    After,
}

/// Where `a` stands to `b`.
pub open spec fn rank(a: Seq<u8>, b: Seq<u8>) -> Rank {
    if a == b {
        Rank::Same
    } else if lex_lt(a, b) {
        Rank::Before
    } else {
        Rank::After
    }
}

proof fn lemma_lex_skip(a: Seq<u8>, b: Seq<u8>, i: int)
    requires
        0 <= i <= a.len(),
        i <= b.len(),
        a.take(i) == b.take(i),
    ensures
        lex_lt(a, b) == lex_lt(a.skip(i), b.skip(i)),
        (a == b) == (a.skip(i) == b.skip(i)),
    decreases i,
{
    if i > 0 {
        assert(a.take(i)[0] == a[0] && b.take(i)[0] == b[0]);
        assert(a[0] == b[0]);
        assert(lex_lt(a, b) == lex_lt(a.skip(1), b.skip(1)));
        assert(a.skip(1).take(i - 1) =~= a.take(i).skip(1));
        assert(b.skip(1).take(i - 1) =~= b.take(i).skip(1));
        lemma_lex_skip(a.skip(1), b.skip(1), i - 1);
        assert(a.skip(1).skip(i - 1) =~= a.skip(i));
        assert(b.skip(1).skip(i - 1) =~= b.skip(i));
        if a.skip(i) == b.skip(i) {
            assert(a =~= a.take(i) + a.skip(i));
            assert(b =~= b.take(i) + b.skip(i));
        }
    } else {
        assert(a.skip(0) =~= a);
        assert(b.skip(0) =~= b);
    }
}

/// Where `a` stands to `b` in the order of byte strings.
pub fn bytes_rank(a: &[u8], b: &[u8]) -> (r: Rank)
    ensures
        r == rank(a@, b@),
{
    let mut i: usize = 0;
    while i < a.len() && i < b.len() && a[i] == b[i]
        invariant
            i <= a@.len(),
            i <= b@.len(),
            a@.take(i as int) == b@.take(i as int),
        decreases a@.len() - i,
    {
        i += 1;
        assert(a@.take(i as int) =~= a@.take(i - 1).push(a@[i - 1]));
        assert(b@.take(i as int) =~= b@.take(i - 1).push(b@[i - 1]));
    }
    proof {
        lemma_lex_skip(a@, b@, i as int);
        if i < a@.len() {
            assert(a@.skip(i as int)[0] == a@[i as int]);
        }
        if i < b@.len() {
            assert(b@.skip(i as int)[0] == b@[i as int]);
        }
        if i == a@.len() && i == b@.len() {
            assert(a@.skip(i as int) =~= b@.skip(i as int));
        }
    }
    if i == a.len() && i == b.len() {
        Rank::Same
    } else if i == a.len() {
        Rank::Before
    } else if i == b.len() {
        Rank::After
    } else if a[i] < b[i] {
        Rank::Before
    } else {
        Rank::After
    }
}

/// The bytes by which a name is ordered and stored.
pub open spec fn name_key(name: Seq<char>) -> Seq<u8> {
    encode_utf8(name)
}

/// Two names with the same bytes are the same name.
pub proof fn lemma_name_key_injective(a: Seq<char>, b: Seq<char>)
    requires
        name_key(a) == name_key(b),
    ensures
        a == b,
{
    encode_utf8_decode_utf8(a);
    encode_utf8_decode_utf8(b);
}

/// One entry of a directory.
#[derive(PartialEq, Eq, Debug)]
pub struct Entry {
    pub name: String,
    pub kind: FileKind,
    pub inode: u64,
}

/// One entry of a directory as a mathematical value.
pub struct EntryView {
    pub name: Seq<char>,
    pub kind: FileKind,
    pub inode: u64,
}

impl View for Entry {
    type V = EntryView;

    open spec fn view(&self) -> EntryView {
        EntryView { name: self.name@, kind: self.kind, inode: self.inode }
    }
}

/// A list of entries as a sequence of mathematical values.
pub open spec fn entries_view(entries: Seq<Entry>) -> Seq<EntryView> {
    entries.map_values(|e: Entry| e@)
}

/// What the directory bucket holds for a directory: its parent (0 for a
/// root), its own name, and its entries.
#[derive(PartialEq, Eq, Debug)]
pub struct DentryAttributes {
    pub parent: u64,
    pub entries: Vec<Entry>,
    pub name: String,
}

/// A directory record as a mathematical value.
pub struct DentryAttributesView {
    pub parent: u64,
    pub entries: Seq<EntryView>,
    pub name: Seq<char>,
}

impl View for DentryAttributes {
    type V = DentryAttributesView;

    open spec fn view(&self) -> DentryAttributesView {
        DentryAttributesView {
            parent: self.parent,
            entries: entries_view(self.entries@),
            name: self.name@,
        }
    }
}

/// Whether the entries stand in the strict order of their names' bytes.
pub open spec fn sorted(entries: Seq<EntryView>) -> bool {
    forall|i: int, j: int|
        0 <= i < j < entries.len() ==> lex_lt(
            name_key(#[trigger] entries[i].name),
            name_key(#[trigger] entries[j].name),
        )
}

/// The first place at or after `i` whose name does not come before `name`.
pub open spec fn slot(entries: Seq<EntryView>, name: Seq<char>, i: int) -> int
    decreases entries.len() - i,
{
    if 0 <= i < entries.len() && lex_lt(name_key(entries[i].name), name_key(name)) {
        slot(entries, name, i + 1)
    } else {
        i
    }
}

/// Whether the entry at `k` has the name `name`.
pub open spec fn names(entries: Seq<EntryView>, k: int, name: Seq<char>) -> bool {
    0 <= k < entries.len() && entries[k].name == name
}

/// The entries after `name` was bound to `kind` and `inode`: the entry of
/// that name replaced, or a new one put where the order asks for it.
pub open spec fn entries_joined(
    entries: Seq<EntryView>,
    name: Seq<char>,
    kind: FileKind,
    inode: u64,
) -> Seq<EntryView> {
    let k = slot(entries, name, 0);
    let entry = EntryView { name, kind, inode };
    if names(entries, k, name) {
        entries.update(k, entry)
    } else {
        entries.insert(k, entry)
    }
}

/// What `name` is bound to, if to anything.
pub open spec fn entries_lookup(entries: Seq<EntryView>, name: Seq<char>) -> Option<
    (FileKind, u64),
> {
    let k = slot(entries, name, 0);
    if names(entries, k, name) {
        Some((entries[k].kind, entries[k].inode))
    } else {
        None
    }
}

impl DentryAttributesView {
    /// Whether the entries are in order, so that no name occurs twice.
    pub open spec fn wf(self) -> bool {
        sorted(self.entries)
    }

    /// What `name` is bound to, if to anything.
    pub open spec fn lookup(self, name: Seq<char>) -> Option<(FileKind, u64)> {
        entries_lookup(self.entries, name)
    }

    /// This record after `name` was bound to `kind` and `inode`.
    pub open spec fn joined(self, name: Seq<char>, kind: FileKind, inode: u64) -> Self {
        DentryAttributesView { entries: entries_joined(self.entries, name, kind, inode), ..self }
    }

    /// The record of a directory that was just mounted: `.` bound to itself
    /// and, unless it is a root, `..` bound to its parent.
    pub open spec fn fresh(name: Seq<char>, inode: u64, parent: u64) -> Self {
        let dot = EntryView { name: seq!['.'], kind: FileKind::Directory, inode };
        let dotdot = EntryView { name: seq!['.', '.'], kind: FileKind::Directory, inode: parent };
        DentryAttributesView {
            parent,
            entries: if parent != 0 {
                seq![dot, dotdot]
            } else {
                seq![dot]
            },
            name,
        }
    }
}

/// The slot of a name lies within the list, after every earlier slot.
pub proof fn lemma_slot_bounds(entries: Seq<EntryView>, name: Seq<char>, i: int)
    requires
        0 <= i <= entries.len(),
    ensures
        i <= slot(entries, name, i) <= entries.len(),
        forall|j: int|
            i <= j < slot(entries, name, i) ==> lex_lt(
                name_key(#[trigger] entries[j].name),
                name_key(name),
            ),
        slot(entries, name, i) < entries.len() ==> !lex_lt(
            name_key(entries[slot(entries, name, i)].name),
            name_key(name),
        ),
    decreases entries.len() - i,
{
    if i < entries.len() && lex_lt(name_key(entries[i].name), name_key(name)) {
        lemma_slot_bounds(entries, name, i + 1);
    }
}

/// In an ordered list the slot of a name parts the names before it from the
/// others, and the name itself can only stand at its slot.
pub proof fn lemma_slot_sorted(entries: Seq<EntryView>, name: Seq<char>)
    requires
        sorted(entries),
    ensures
        forall|j: int|
            slot(entries, name, 0) < j < entries.len() ==> lex_lt(
                name_key(name),
                name_key(#[trigger] entries[j].name),
            ),
        forall|j: int|
            0 <= j < entries.len() && #[trigger] entries[j].name == name ==> j == slot(
                entries,
                name,
                0,
            ),
        slot(entries, name, 0) < entries.len() && !names(entries, slot(entries, name, 0), name)
            ==> lex_lt(name_key(name), name_key(entries[slot(entries, name, 0)].name)),
{
    let k = slot(entries, name, 0);
    lemma_slot_bounds(entries, name, 0);
    if k < entries.len() {
        lemma_lex_total(name_key(entries[k].name), name_key(name));
        if name_key(entries[k].name) == name_key(name) {
            lemma_name_key_injective(entries[k].name, name);
        }
    }
    assert forall|j: int| k < j < entries.len() implies lex_lt(
        name_key(name),
        name_key(#[trigger] entries[j].name),
    ) by {
        assert(lex_lt(name_key(entries[k].name), name_key(entries[j].name)));
        if name_key(entries[k].name) == name_key(name) {
        } else {
            lemma_lex_transitive(name_key(name), name_key(entries[k].name), name_key(entries[j].name));
        }
    }
    assert forall|j: int| 0 <= j < entries.len() && #[trigger] entries[j].name == name implies j
        == k by {
        lemma_lex_irreflexive(name_key(name));
        if j > k {
            assert(lex_lt(name_key(name), name_key(entries[j].name)));
        }
    }
}

/// A list whose names before `k` come before `name`, and whose name at `k`
/// does not, has the slot `k` for `name`.
pub proof fn lemma_slot_is(entries: Seq<EntryView>, name: Seq<char>, k: int, i: int)
    requires
        0 <= i <= k <= entries.len(),
        forall|j: int|
            i <= j < k ==> lex_lt(name_key(#[trigger] entries[j].name), name_key(name)),
        k < entries.len() ==> !lex_lt(name_key(entries[k].name), name_key(name)),
    ensures
        slot(entries, name, i) == k,
    decreases k - i,
{
    if i < k {
        lemma_slot_is(entries, name, k, i + 1);
    }
}

/// Binding a name keeps the entries in order, binds the name, and leaves
/// every other name as it was.
#[verifier::rlimit(50)]
pub proof fn lemma_joined(
    entries: Seq<EntryView>,
    name: Seq<char>,
    kind: FileKind,
    inode: u64,
)
    requires
        sorted(entries),
    ensures
        sorted(entries_joined(entries, name, kind, inode)),
        slot(entries_joined(entries, name, kind, inode), name, 0) == slot(entries, name, 0),
        entries_lookup(entries_joined(entries, name, kind, inode), name) == Some((kind, inode)),
        forall|other: Seq<char>|
            other != name ==> #[trigger] entries_lookup(
                entries_joined(entries, name, kind, inode),
                other,
            ) == entries_lookup(entries, other),
{
    let k = slot(entries, name, 0);
    let after = entries_joined(entries, name, kind, inode);
    lemma_slot_bounds(entries, name, 0);
    lemma_slot_sorted(entries, name);
    lemma_lex_irreflexive(name_key(name));
    let replaced = names(entries, k, name);
    assert forall|i: int, j: int| 0 <= i < j < after.len() implies lex_lt(
        name_key(#[trigger] after[i].name),
        name_key(#[trigger] after[j].name),
    ) by {
        if replaced {
            assert(after[i].name == entries[i].name);
            assert(after[j].name == entries[j].name);
        } else {
            let oi = if i < k {
                i
            } else {
                i - 1
            };
            let oj = if j < k {
                j
            } else {
                j - 1
            };
            if i != k && j != k {
                assert(after[i].name == entries[oi].name);
                assert(after[j].name == entries[oj].name);
            } else if i == k {
                assert(after[j].name == entries[oj].name);
            } else {
                assert(after[i].name == entries[oi].name);
            }
        }
    }
    assert(slot(after, name, 0) == k) by {
        assert forall|j: int| 0 <= j < k implies lex_lt(
            name_key(#[trigger] after[j].name),
            name_key(name),
        ) by {
            assert(after[j].name == entries[j].name);
        }
        lemma_slot_is(after, name, k, 0);
    }
    assert forall|other: Seq<char>| other != name implies #[trigger] entries_lookup(after, other)
        == entries_lookup(entries, other) by {
        let m = slot(entries, other, 0);
        lemma_slot_bounds(entries, other, 0);
        lemma_slot_sorted(entries, other);
        lemma_lex_total(name_key(name), name_key(other));
        if name_key(name) == name_key(other) {
            lemma_name_key_injective(name, other);
        }
        if replaced {
            assert forall|j: int| 0 <= j < m implies lex_lt(
                name_key(#[trigger] after[j].name),
                name_key(other),
            ) by {
                assert(after[j].name == entries[j].name);
            }
            if m < entries.len() {
                assert(after[m].name == entries[m].name);
            }
            lemma_slot_is(after, other, m, 0);
        } else if lex_lt(name_key(name), name_key(other)) {
            // the new entry stands before the slot of `other`
            assert(k <= m) by {
                if m < k {
                    assert(lex_lt(name_key(entries[m].name), name_key(name)));
                    lemma_lex_transitive(
                        name_key(entries[m].name),
                        name_key(name),
                        name_key(other),
                    );
                }
            }
            assert forall|j: int| 0 <= j < m + 1 implies lex_lt(
                name_key(#[trigger] after[j].name),
                name_key(other),
            ) by {
                if j < k {
                    assert(after[j].name == entries[j].name);
                } else if j > k {
                    assert(after[j].name == entries[j - 1].name);
                }
            }
            if m < entries.len() {
                assert(after[m + 1].name == entries[m].name);
            }
            lemma_slot_is(after, other, m + 1, 0);
        } else {
            // the new entry stands at or after the slot of `other`
            assert(lex_lt(name_key(other), name_key(name)));
            assert(m <= k) by {
                if k < m {
                    assert(lex_lt(name_key(entries[k].name), name_key(other)));
                    lemma_lex_transitive(
                        name_key(entries[k].name),
                        name_key(other),
                        name_key(name),
                    );
                }
            }
            assert forall|j: int| 0 <= j < m implies lex_lt(
                name_key(#[trigger] after[j].name),
                name_key(other),
            ) by {
                assert(after[j].name == entries[j].name);
            }
            if m < k {
                assert(after[m].name == entries[m].name);
            } else {
                assert(after[m].name == name);
                lemma_lex_asymmetric(name_key(other), name_key(name));
            }
            lemma_slot_is(after, other, m, 0);
            if m == k && m < entries.len() {
                // `other` is not at its slot in the old list either
                assert(!names(entries, m, other)) by {
                    if entries[m].name == other {
                        assert(lex_lt(name_key(name), name_key(entries[k].name)));
                        lemma_lex_asymmetric(name_key(other), name_key(name));
                    }
                }
            }
        }
    }
}

/// Of two byte strings at most one comes before the other.
pub proof fn lemma_lex_asymmetric(a: Seq<u8>, b: Seq<u8>)
    requires
        lex_lt(a, b),
    ensures
        !lex_lt(b, a),
{
    if lex_lt(b, a) {
        lemma_lex_transitive(a, b, a);
        lemma_lex_irreflexive(a);
    }
}

/// Binding a name a second time to the same kind and inode changes nothing.
pub proof fn lemma_joined_twice(
    entries: Seq<EntryView>,
    name: Seq<char>,
    kind: FileKind,
    inode: u64,
)
    requires
        sorted(entries),
    ensures
        entries_joined(entries_joined(entries, name, kind, inode), name, kind, inode)
            == entries_joined(entries, name, kind, inode),
{
    let once = entries_joined(entries, name, kind, inode);
    lemma_joined(entries, name, kind, inode);
    lemma_slot_bounds(entries, name, 0);
    assert(entries_joined(once, name, kind, inode) =~= once);
}

impl Clone for Entry {
    fn clone(&self) -> (copy: Entry)
        ensures
            copy@ == self@,
    {
        Entry { name: self.name.clone(), kind: self.kind, inode: self.inode }
    }
}

impl Clone for DentryAttributes {
    fn clone(&self) -> (copy: DentryAttributes)
        ensures
            copy@ == self@,
    {
        let mut entries: Vec<Entry> = Vec::new();
        let mut i: usize = 0;
        while i < self.entries.len()
            invariant
                i <= self.entries@.len(),
                entries@.len() == i,
                entries_view(entries@) == entries_view(self.entries@).take(i as int),
            decreases self.entries@.len() - i,
        {
            let ghost before = entries@;
            entries.push(self.entries[i].clone());
            i += 1;
            assert forall|k: int| 0 <= k < i implies entries_view(entries@)[k] == entries_view(
                self.entries@,
            )[k] by {
                if k < i - 1 {
                    assert(entries_view(before)[k] == entries_view(self.entries@).take(i - 1)[k]);
                }
            }
            assert(entries_view(entries@) =~= entries_view(self.entries@).take(i as int));
        }
        assert(entries_view(self.entries@).take(i as int) =~= entries_view(self.entries@));
        DentryAttributes { parent: self.parent, entries, name: self.name.clone() }
    }
}

impl DentryAttributes {
    /// The record of a directory that is just being mounted as `inode` under
    /// `parent`, or as a root where `parent` is 0.
    pub fn new(name: String, inode: u64, parent: u64) -> (record: DentryAttributes)
        ensures
            record@ == DentryAttributesView::fresh(name@, inode, parent),
            record@.wf(),
    {
        let mut entries: Vec<Entry> = Vec::new();
        let dot = ".".to_owned();
        let dotdot = "..".to_owned();
        proof {
            reveal_strlit(".");
            reveal_strlit("..");
            assert(dot@ =~= seq!['.']);
            assert(dotdot@ =~= seq!['.', '.']);
            lemma_dot_names();
        }
        entries.push(Entry { name: dot, kind: FileKind::Directory, inode });
        if parent != 0 {
            entries.push(Entry { name: dotdot, kind: FileKind::Directory, inode: parent });
        }
        let record = DentryAttributes { parent, entries, name };
        assert(record@.entries =~= DentryAttributesView::fresh(name@, inode, parent).entries);
        record
    }

    /// The place where the order asks for `name`.
    fn slot_of(&self, name: &str) -> (k: usize)
        ensures
            k == slot(self@.entries, name@, 0),
            k <= self.entries@.len(),
    {
        let mut k: usize = 0;
        proof {
            lemma_slot_bounds(self@.entries, name@, 0);
        }
        while k < self.entries.len() && matches!(
            bytes_rank(self.entries[k].name.as_str().as_bytes(), name.as_bytes()),
            Rank::Before
        )
            invariant
                k <= self.entries@.len(),
                slot(self@.entries, name@, 0) == slot(self@.entries, name@, k as int),
            decreases self.entries@.len() - k,
        {
            proof {
                lemma_lex_irreflexive(name_key(name@));
                assert(self@.entries[k as int].name == self.entries@[k as int].name@);
            }
            k += 1;
        }
        proof {
            lemma_lex_irreflexive(name_key(name@));
            if k < self.entries@.len() {
                assert(self@.entries[k as int].name == self.entries@[k as int].name@);
            }
        }
        k
    }

    /// Whether the entry at `k` is that of `name`.
    fn names_at(&self, k: usize, name: &str) -> (found: bool)
        ensures
            found == names(self@.entries, k as int, name@),
    {
        if k < self.entries.len() {
            proof {
                assert(self@.entries[k as int].name == self.entries@[k as int].name@);
                if name_key(self.entries@[k as int].name@) == name_key(name@) {
                    lemma_name_key_injective(self.entries@[k as int].name@, name@);
                }
            }
            matches!(
                bytes_rank(self.entries[k].name.as_str().as_bytes(), name.as_bytes()),
                Rank::Same
            )
        } else {
            false
        }
    }

    /// What `name` is bound to, if to anything.
    pub fn lookup(&self, name: &str) -> (found: Option<(FileKind, u64)>)
        ensures
            found == self@.lookup(name@),
    {
        let k = self.slot_of(name);
        if self.names_at(k, name) {
            assert(self@.entries[k as int] == self.entries@[k as int]@);
            Some((self.entries[k].kind, self.entries[k].inode))
        } else {
            None
        }
    }

    /// Binds `name` to `kind` and `inode`, in place of what it was bound to.
    pub fn insert(&mut self, name: String, kind: FileKind, inode: u64)
        ensures
            final(self)@ == old(self)@.joined(name@, kind, inode),
    {
        let k = self.slot_of(name.as_str());
        let replace = self.names_at(k, name.as_str());
        let ghost before = self.entries@;
        let entry = Entry { name, kind, inode };
        if replace {
            self.entries.set(k, entry);
            assert(entries_view(self.entries@) =~= entries_view(before).update(k as int, entry@));
        } else {
            self.entries.insert(k, entry);
            assert(entries_view(self.entries@) =~= entries_view(before).insert(k as int, entry@));
        }
    }
}

/// `.` comes before `..`, so the entries of a fresh directory are in order.
pub proof fn lemma_dot_names()
    ensures
        lex_lt(name_key(seq!['.']), name_key(seq!['.', '.'])),
{
    let one = seq!['.'];
    let two = seq!['.', '.'];
    assert(vstd::utf8::is_ascii_chars(one));
    assert(vstd::utf8::is_ascii_chars(two));
    vstd::utf8::is_ascii_chars_encode_utf8(one);
    vstd::utf8::is_ascii_chars_encode_utf8(two);
    let a = name_key(one);
    let b = name_key(two);
    assert(a.len() == 1 && b.len() == 2);
    assert(a[0] == one[0] as u8 && b[0] == two[0] as u8);
    assert(a[0] == b[0]);
    assert(a.skip(1).len() == 0);
    assert(b.skip(1).len() == 1);
    assert(lex_lt(a.skip(1), b.skip(1)));
}

} // verus!
