use vstd::prelude::*;

use crate::catalog::Schema;
use crate::page::{PageId, INVALID_PAGE_ID};
use crate::tuple::{key_cmp, lemma_key_cmp_antisymmetric, lemma_key_cmp_transitive, Rid, ScalarValue, Tuple};

verus! {

/// The two kinds of B+tree node.
#[derive(Debug, Clone, Copy, PartialEq, Eq, Structural)]
pub enum BPlusTreePageType {
    LeafPage,
    InternalPage,
}

#[derive(Debug, Clone, Copy, PartialEq, Eq, Structural)]
pub struct BPlusTreeLeafPageHeader {
    pub page_type: BPlusTreePageType,
    pub current_size: u32,
    pub max_size: u32,
    /// The next leaf in key order, or the invalid page id.
    pub next_page_id: PageId,
}

#[derive(Debug, Clone, Copy, PartialEq, Eq, Structural)]
pub struct BPlusTreeInternalPageHeader {
    pub page_type: BPlusTreePageType,
    pub current_size: u32,
    pub max_size: u32,
}

/// A leaf node: keys with the record ids they index, ascending by key.
#[derive(Debug, Clone, PartialEq, Eq)]
pub struct BPlusTreeLeafPage {
    pub schema: Schema,
    pub header: BPlusTreeLeafPageHeader,
    pub array: Vec<(Tuple, Rid)>,
}

/// An internal node: the first entry holds only the leftmost child, every later entry a
/// separator key with the child to its right.
#[derive(Debug, Clone, PartialEq, Eq)]
pub struct BPlusTreeInternalPage {
    pub schema: Schema,
    pub header: BPlusTreeInternalPageHeader,
    pub array: Vec<(Tuple, PageId)>,
}

#[derive(Debug, Clone, PartialEq, Eq)]
pub enum BPlusTreePage {
    Leaf(BPlusTreeLeafPage),
    Internal(BPlusTreeInternalPage),
}

/// What a page holds, with keys as value sequences.
pub enum PageView {
    Leaf { leaf_header: BPlusTreeLeafPageHeader, leaf_entries: Seq<(Seq<ScalarValue>, Rid)> },
    Internal {
        internal_header: BPlusTreeInternalPageHeader,
        internal_entries: Seq<(Seq<ScalarValue>, PageId)>,
    },
}

pub open spec fn leaf_entries_view(a: Seq<(Tuple, Rid)>) -> Seq<(Seq<ScalarValue>, Rid)> {
    a.map_values(|e: (Tuple, Rid)| (e.0@, e.1))
}

pub open spec fn internal_entries_view(a: Seq<(Tuple, PageId)>) -> Seq<(Seq<ScalarValue>, PageId)> {
    a.map_values(|e: (Tuple, PageId)| (e.0@, e.1))
}

impl View for BPlusTreePage {
    type V = PageView;

    open spec fn view(&self) -> PageView {
        match self {
            BPlusTreePage::Leaf(p) => PageView::Leaf {
                leaf_header: p.header,
                leaf_entries: leaf_entries_view(p.array@),
            },
            BPlusTreePage::Internal(p) => PageView::Internal {
                internal_header: p.header,
                internal_entries: internal_entries_view(p.array@),
            },
        }
    }
}

impl BPlusTreePage {
    /// Every key tuple of the page carries a schema with the columns of `schema`.
    pub open spec fn keys_carry_schema(&self, schema: Schema) -> bool {
        match self {
            BPlusTreePage::Leaf(p) => forall|j: int| 0 <= j < p.array@.len() ==> (#[trigger] p.array@[j]).0.schema@ == schema@,
            BPlusTreePage::Internal(p) => forall|j: int|
                0 <= j < p.array@.len() ==> (#[trigger] p.array@[j]).0.schema@ == schema@,
        }
    }

    pub open spec fn schema_spec(&self) -> Schema {
        match self {
            BPlusTreePage::Leaf(p) => p.schema,
            BPlusTreePage::Internal(p) => p.schema,
        }
    }
}

} // verus!

verus! {

/// Keys strictly ascend from each entry to the next.
pub open spec fn keys_ascending(keys: Seq<Seq<ScalarValue>>) -> bool {
    forall|i: int, j: int| 0 <= i < j < keys.len() ==> key_cmp(#[trigger] keys[i], #[trigger] keys[j]) < 0
}

pub open spec fn leaf_keys(a: Seq<(Tuple, Rid)>) -> Seq<Seq<ScalarValue>> {
    a.map_values(|e: (Tuple, Rid)| e.0@)
}

/// Separator keys of an internal node: every key but the first.
pub open spec fn separator_keys(a: Seq<(Tuple, PageId)>) -> Seq<Seq<ScalarValue>> {
    a.map_values(|e: (Tuple, PageId)| e.0@).drop_first()
}

/// Inserting a key that is not there yet, at the position `insert` picks, keeps keys
/// strictly ascending.
pub proof fn lemma_insert_keeps_ascending(keys: Seq<Seq<ScalarValue>>, idx: int, key: Seq<ScalarValue>)
    requires
        keys_ascending(keys),
        0 <= idx <= keys.len(),
        forall|j: int| 0 <= j < keys.len() ==> key_cmp(#[trigger] keys[j], key) != 0,
        forall|j: int| 0 <= j < idx ==> key_cmp(#[trigger] keys[j], key) <= 0,
        idx < keys.len() ==> key_cmp(keys[idx], key) > 0,
    ensures
        keys_ascending(keys.insert(idx, key)),
{
    let r = keys.insert(idx, key);
    assert forall|i: int, j: int| 0 <= i < j < r.len() implies key_cmp(#[trigger] r[i], #[trigger] r[j]) < 0 by {
        if j < idx {
        } else if j == idx {
            assert(key_cmp(keys[i], key) != 0);
        } else if i == idx {
            lemma_key_cmp_antisymmetric(keys[idx], key);
            if j - 1 > idx {
                lemma_key_cmp_transitive(key, keys[idx], keys[j - 1]);
            }
        } else if i < idx {
            assert(key_cmp(keys[i], key) != 0);
            lemma_key_cmp_antisymmetric(keys[idx], key);
            if j - 1 > idx {
                lemma_key_cmp_transitive(key, keys[idx], keys[j - 1]);
            }
            lemma_key_cmp_transitive(keys[i], key, keys[j - 1]);
        } else {
        }
    }
}

impl BPlusTreeLeafPage {
    /// Header size agrees with the entries.
    pub open spec fn wf(&self) -> bool {
        &&& self.header.page_type == BPlusTreePageType::LeafPage
        &&& self.header.current_size == self.array@.len()
    }

    /// An empty leaf with no next leaf.
    pub fn new(schema: Schema, max_size: u32) -> (r: Self)
        ensures
            r.wf(),
            r.schema == schema,
            r.array@.len() == 0,
            r.header.max_size == max_size,
            r.header.next_page_id == INVALID_PAGE_ID,
    {
        BPlusTreeLeafPage {
            schema,
            header: BPlusTreeLeafPageHeader {
                page_type: BPlusTreePageType::LeafPage,
                current_size: 0,
                max_size,
                next_page_id: INVALID_PAGE_ID,
            },
            array: Vec::new(),
        }
    }

    /// Inserts the entry after every entry whose key sorts before or with `key`.
    pub fn insert(&mut self, key: Tuple, rid: Rid)
        requires
            old(self).wf(),
            old(self).array@.len() < u32::MAX,
        ensures
            final(self).wf(),
            final(self).schema == old(self).schema,
            final(self).header.max_size == old(self).header.max_size,
            final(self).header.next_page_id == old(self).header.next_page_id,
            exists|idx: int|
                0 <= idx <= old(self).array@.len() && final(self).array@ == old(self).array@.insert(
                    idx,
                    (key, rid),
                ) && (forall|j: int| 0 <= j < idx ==> key_cmp(#[trigger] old(self).array@[j].0@, key@) <= 0)
                    && (idx < old(self).array@.len() ==> key_cmp(old(self).array@[idx].0@, key@) > 0),
            keys_ascending(leaf_keys(old(self).array@)) && (forall|j: int|
                0 <= j < old(self).array@.len() ==> key_cmp(#[trigger] old(self).array@[j].0@, key@) != 0)
                ==> keys_ascending(leaf_keys(final(self).array@)),
    {
        let n = self.array.len();
        let mut i: usize = 0;
        while i < n && self.array[i].0.compare(&key) <= 0
            invariant
                i <= n,
                n == self.array@.len(),
                forall|j: int| 0 <= j < i ==> key_cmp(#[trigger] self.array@[j].0@, key@) <= 0,
            decreases n - i,
        {
            i = i + 1;
        }
        let ghost old_array = self.array@;
        self.array.insert(i, (key, rid));
        self.header.current_size = self.header.current_size + 1;
        proof {
            let ks = leaf_keys(old_array);
            assert(leaf_keys(self.array@) =~= ks.insert(i as int, key@));
            if keys_ascending(ks) && (forall|j: int| 0 <= j < old_array.len() ==> key_cmp(#[trigger] old_array[j].0@, key@) != 0) {
                assert forall|j: int| 0 <= j < ks.len() implies key_cmp(#[trigger] ks[j], key@) != 0 by {
                    assert(ks[j] == old_array[j].0@);
                }
                assert forall|j: int| 0 <= j < i implies key_cmp(#[trigger] ks[j], key@) <= 0 by {
                    assert(ks[j] == old_array[j].0@);
                }
                lemma_insert_keeps_ascending(ks, i as int, key@);
            }
        }
    }

    /// Moves the upper half of the entries out: the page keeps the first `ceil(n / 2)`.
    pub fn split_upper_half(&mut self) -> (r: Vec<(Tuple, Rid)>)
        requires
            old(self).wf(),
        ensures
            final(self).wf(),
            final(self).schema == old(self).schema,
            final(self).header.max_size == old(self).header.max_size,
            final(self).header.next_page_id == old(self).header.next_page_id,
            final(self).array@.len() == (old(self).array@.len() + 1) / 2,
            final(self).array@ + r@ == old(self).array@,
    {
        let n = self.array.len();
        let keep = n - n / 2;
        let upper = self.array.split_off(keep);
        self.header.current_size = keep as u32;
        assert(self.array@ + upper@ =~= old(self).array@);
        upper
    }

    /// Removes the first entry whose key equals `key`; whether there was one.
    pub fn remove(&mut self, key: &Tuple) -> (r: bool)
        requires
            old(self).wf(),
        ensures
            final(self).wf(),
            final(self).schema == old(self).schema,
            final(self).header.max_size == old(self).header.max_size,
            final(self).header.next_page_id == old(self).header.next_page_id,
            r == exists|j: int| 0 <= j < old(self).array@.len() && key_cmp(#[trigger] old(self).array@[j].0@, key@) == 0,
            !r ==> final(self).array@ == old(self).array@,
            r ==> exists|idx: int|
                0 <= idx < old(self).array@.len() && key_cmp(old(self).array@[idx].0@, key@) == 0 && (forall|j: int|
                    0 <= j < idx ==> key_cmp(#[trigger] old(self).array@[j].0@, key@) != 0)
                    && final(self).array@ == old(self).array@.remove(idx),
    {
        let n = self.array.len();
        for i in 0..n
            invariant
                n == self.array@.len(),
                self.wf(),
                *self == *old(self),
                forall|j: int| 0 <= j < i ==> key_cmp(#[trigger] self.array@[j].0@, key@) != 0,
        {
            if self.array[i].0.compare(key) == 0 {
                let _ = self.array.remove(i);
                self.header.current_size = self.header.current_size - 1;
                return true;
            }
        }
        false
    }

    /// Appends all entries of the right sibling and takes over its next-leaf link.
    pub fn merge(&mut self, right: BPlusTreeLeafPage)
        requires
            old(self).wf(),
            right.wf(),
            old(self).array@.len() + right.array@.len() <= u32::MAX,
        ensures
            final(self).wf(),
            final(self).schema == old(self).schema,
            final(self).header.max_size == old(self).header.max_size,
            final(self).header.next_page_id == right.header.next_page_id,
            final(self).array@ == old(self).array@ + right.array@,
    {
        let mut right = right;
        let size = self.header.current_size + right.header.current_size;
        self.array.append(&mut right.array);
        self.header.current_size = size;
        self.header.next_page_id = right.header.next_page_id;
    }

    /// Moves the right sibling's first entry to the end of this leaf.
    pub fn borrow_from_right(&mut self, right: &mut BPlusTreeLeafPage)
        requires
            old(self).wf(),
            old(right).wf(),
            old(right).array@.len() > 0,
            old(self).array@.len() < u32::MAX,
        ensures
            final(self).wf(),
            final(right).wf(),
            final(self).schema == old(self).schema,
            final(self).header.max_size == old(self).header.max_size,
            final(self).header.next_page_id == old(self).header.next_page_id,
            final(right).schema == old(right).schema,
            final(right).header.max_size == old(right).header.max_size,
            final(right).header.next_page_id == old(right).header.next_page_id,
            final(self).array@ == old(self).array@.push(old(right).array@[0]),
            final(right).array@ == old(right).array@.drop_first(),
    {
        let e = right.array.remove(0);
        right.header.current_size = right.header.current_size - 1;
        self.array.push(e);
        self.header.current_size = self.header.current_size + 1;
        assert(right.array@ =~= old(right).array@.drop_first());
    }

    /// Moves the left sibling's last entry to the front of this leaf.
    pub fn borrow_from_left(&mut self, left: &mut BPlusTreeLeafPage)
        requires
            old(self).wf(),
            old(left).wf(),
            old(left).array@.len() > 0,
            old(self).array@.len() < u32::MAX,
        ensures
            final(self).wf(),
            final(left).wf(),
            final(self).schema == old(self).schema,
            final(self).header.max_size == old(self).header.max_size,
            final(self).header.next_page_id == old(self).header.next_page_id,
            final(left).schema == old(left).schema,
            final(left).header.max_size == old(left).header.max_size,
            final(left).header.next_page_id == old(left).header.next_page_id,
            final(self).array@ == seq![old(left).array@.last()] + old(self).array@,
            final(left).array@ == old(left).array@.drop_last(),
    {
        let e = left.array.pop().unwrap();
        left.header.current_size = left.header.current_size - 1;
        self.array.insert(0, e);
        self.header.current_size = self.header.current_size + 1;
        assert(self.array@ =~= seq![old(left).array@.last()] + old(self).array@);
    }

    /// The record id stored with `key`, if any entry has it.
    pub fn look_up(&self, key: &Tuple) -> (r: Option<Rid>)
        ensures
            r is None <==> forall|j: int| 0 <= j < self.array@.len() ==> key_cmp(#[trigger] self.array@[j].0@, key@) != 0,
            r is Some ==> exists|j: int|
                0 <= j < self.array@.len() && key_cmp(#[trigger] self.array@[j].0@, key@) == 0
                    && self.array@[j].1 == r->Some_0,
    {
        let n = self.array.len();
        for i in 0..n
            invariant
                n == self.array@.len(),
                forall|j: int| 0 <= j < i ==> key_cmp(#[trigger] self.array@[j].0@, key@) != 0,
        {
            if self.array[i].0.compare(key) == 0 {
                return Some(self.array[i].1);
            }
        }
        None
    }
}

impl BPlusTreeInternalPage {
    pub open spec fn wf(&self) -> bool {
        &&& self.header.page_type == BPlusTreePageType::InternalPage
        &&& self.header.current_size == self.array@.len()
    }

    pub fn new(schema: Schema, max_size: u32) -> (r: Self)
        ensures
            r.wf(),
            r.schema == schema,
            r.array@.len() == 0,
            r.header.max_size == max_size,
    {
        BPlusTreeInternalPage {
            schema,
            header: BPlusTreeInternalPageHeader {
                page_type: BPlusTreePageType::InternalPage,
                current_size: 0,
                max_size,
            },
            array: Vec::new(),
        }
    }

    /// The child whose range holds `key`: the one before the first separator that sorts
    /// after `key`, or the last child when none does.
    pub fn look_up(&self, key: &Tuple) -> (r: PageId)
        requires
            self.array@.len() > 0,
        ensures
            exists|idx: int|
                0 <= idx < self.array@.len() && r == self.array@[idx].1 && (forall|j: int|
                    1 <= j <= idx ==> key_cmp(#[trigger] self.array@[j].0@, key@) <= 0) && (idx + 1
                    < self.array@.len() ==> key_cmp(self.array@[idx + 1].0@, key@) > 0),
    {
        let n = self.array.len();
        let mut i: usize = 1;
        while i < n && self.array[i].0.compare(key) <= 0
            invariant
                1 <= i <= n,
                n == self.array@.len(),
                forall|j: int| 1 <= j < i ==> key_cmp(#[trigger] self.array@[j].0@, key@) <= 0,
            decreases n - i,
        {
            i = i + 1;
        }
        self.array[i - 1].1
    }

    /// Moves the upper half of the entries out: the node keeps the first `ceil(n / 2)`, and
    /// the first entry moved out carries the separator to promote.
    pub fn split_upper_half(&mut self) -> (r: Vec<(Tuple, PageId)>)
        requires
            old(self).wf(),
        ensures
            final(self).wf(),
            final(self).schema == old(self).schema,
            final(self).header.max_size == old(self).header.max_size,
            final(self).array@.len() == (old(self).array@.len() + 1) / 2,
            final(self).array@ + r@ == old(self).array@,
    {
        let n = self.array.len();
        let keep = n - n / 2;
        let upper = self.array.split_off(keep);
        self.header.current_size = keep as u32;
        assert(self.array@ + upper@ =~= old(self).array@);
        upper
    }

    /// Replaces the key of the entry at `index`, keeping its child.
    pub fn set_key_at(&mut self, index: usize, key: Tuple)
        requires
            old(self).wf(),
            index < old(self).array@.len(),
        ensures
            final(self).wf(),
            final(self).schema == old(self).schema,
            final(self).header.max_size == old(self).header.max_size,
            final(self).array@ == old(self).array@.update(index as int, (key, old(self).array@[index as int].1)),
    {
        let child = self.array[index].1;
        self.array.set(index, (key, child));
    }

    /// Removes the entry at `index`, with its separator and child.
    pub fn remove_at(&mut self, index: usize) -> (r: (Tuple, PageId))
        requires
            old(self).wf(),
            index < old(self).array@.len(),
        ensures
            final(self).wf(),
            final(self).schema == old(self).schema,
            final(self).header.max_size == old(self).header.max_size,
            r == old(self).array@[index as int],
            final(self).array@ == old(self).array@.remove(index as int),
    {
        let e = self.array.remove(index);
        self.header.current_size = self.header.current_size - 1;
        e
    }

    /// Inserts a child. Into an empty node it goes first, as the leftmost child whose key is not
    /// read; otherwise after the first entry and after every separator that sorts before or with
    /// `key`.
    pub fn insert(&mut self, key: Tuple, page_id: PageId)
        requires
            old(self).wf(),
            old(self).array@.len() < u32::MAX,
        ensures
            final(self).wf(),
            final(self).schema == old(self).schema,
            final(self).header.max_size == old(self).header.max_size,
            old(self).array@.len() == 0 ==> final(self).array@ == seq![(key, page_id)],
            old(self).array@.len() > 0 ==> exists|idx: int|
                1 <= idx <= old(self).array@.len() && final(self).array@ == old(self).array@.insert(
                    idx,
                    (key, page_id),
                ) && (forall|j: int| 1 <= j < idx ==> key_cmp(#[trigger] old(self).array@[j].0@, key@) <= 0)
                    && (idx < old(self).array@.len() ==> key_cmp(old(self).array@[idx].0@, key@) > 0),
            keys_ascending(separator_keys(old(self).array@)) && (forall|j: int|
                1 <= j < old(self).array@.len() ==> key_cmp(#[trigger] old(self).array@[j].0@, key@) != 0)
                ==> keys_ascending(separator_keys(final(self).array@)),
    {
        let n = self.array.len();
        if n == 0 {
            self.array.push((key, page_id));
            self.header.current_size = 1;
            assert(self.array@ =~= seq![(key, page_id)]);
            assert(separator_keys(self.array@).len() == 0);
            return;
        }
        let mut i: usize = 1;
        while i < n && self.array[i].0.compare(&key) <= 0
            invariant
                1 <= i <= n,
                n == self.array@.len(),
                forall|j: int| 1 <= j < i ==> key_cmp(#[trigger] self.array@[j].0@, key@) <= 0,
            decreases n - i,
        {
            i = i + 1;
        }
        let ghost old_array = self.array@;
        self.array.insert(i, (key, page_id));
        self.header.current_size = self.header.current_size + 1;
        proof {
            let ks = separator_keys(old_array);
            assert(separator_keys(self.array@) =~= ks.insert(i - 1, key@));
            if keys_ascending(ks) && (forall|j: int| 1 <= j < old_array.len() ==> key_cmp(#[trigger] old_array[j].0@, key@) != 0) {
                assert forall|j: int| 0 <= j < ks.len() implies key_cmp(#[trigger] ks[j], key@) != 0 by {
                    assert(ks[j] == old_array[j + 1].0@);
                }
                assert forall|j: int| 0 <= j < i - 1 implies key_cmp(#[trigger] ks[j], key@) <= 0 by {
                    assert(ks[j] == old_array[j + 1].0@);
                }
                if i < n {
                    assert(ks[i - 1] == old_array[i as int].0@);
                }
                lemma_insert_keeps_ascending(ks, i - 1, key@);
            }
        }
    }
}

} // verus!
