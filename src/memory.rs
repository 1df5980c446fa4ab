use vstd::prelude::*;

use crate::javascript_object::{JavascriptObjectKind, JavascriptObjectRef};

verus! {

/// The entries of `table` whose id is in `live`, in their order.
pub open spec fn swept(table: Seq<JavascriptObjectRef>, live: Set<u64>) -> Seq<JavascriptObjectRef> {
    table.filter(|o: JavascriptObjectRef| live.contains(o.id))
}

/// The heap: every allocated object that has not been swept, in order of
/// allocation, and the id the next allocation receives.
pub struct Memory {
    pub table: Vec<JavascriptObjectRef>,
    pub next_id: u64,
}

impl Memory {
    pub fn new() -> (r: Self)
        ensures
            r.table@ == Seq::<JavascriptObjectRef>::empty(),
            r.next_id == 0,
    {
        Memory { table: Vec::new(), next_id: 0 }
    }

    /// Mints an object of the given kind under a fresh id and records it;
    /// `None`, with nothing changed, once every id has been handed out.
    pub fn allocate(&mut self, kind: JavascriptObjectKind) -> (r: Option<JavascriptObjectRef>)
        ensures
            old(self).next_id == u64::MAX ==> r is None && *final(self) == *old(self),
            old(self).next_id < u64::MAX ==> {
                let o = JavascriptObjectRef { id: old(self).next_id, kind };
                &&& r == Some(o)
                &&& final(self).table@ == old(self).table@.push(o)
                &&& final(self).next_id == old(self).next_id + 1
            },
    {
        if self.next_id == u64::MAX {
            return None;
        }
        let object = JavascriptObjectRef { id: self.next_id, kind };
        let kept = object.duplicate();
        self.table.push(kept);
        self.next_id = self.next_id + 1;
        Some(object)
    }

    pub fn allocate_undefined(&mut self) -> (r: Option<JavascriptObjectRef>)
        ensures
            old(self).next_id == u64::MAX ==> r is None && *final(self) == *old(self),
            old(self).next_id < u64::MAX ==> {
                let o = JavascriptObjectRef { id: old(self).next_id, kind: JavascriptObjectKind::Undefined };
                &&& r == Some(o)
                &&& final(self).table@ == old(self).table@.push(o)
                &&& final(self).next_id == old(self).next_id + 1
            },
    {
        self.allocate(JavascriptObjectKind::Undefined)
    }

    pub fn allocate_boolean(&mut self, value: bool) -> (r: Option<JavascriptObjectRef>)
        ensures
            old(self).next_id == u64::MAX ==> r is None && *final(self) == *old(self),
            old(self).next_id < u64::MAX ==> {
                let o = JavascriptObjectRef { id: old(self).next_id, kind: JavascriptObjectKind::Boolean { value } };
                &&& r == Some(o)
                &&& final(self).table@ == old(self).table@.push(o)
                &&& final(self).next_id == old(self).next_id + 1
            },
    {
        self.allocate(JavascriptObjectKind::Boolean { value })
    }

    pub fn allocate_number(&mut self, value: u64) -> (r: Option<JavascriptObjectRef>)
        ensures
            old(self).next_id == u64::MAX ==> r is None && *final(self) == *old(self),
            old(self).next_id < u64::MAX ==> {
                let o = JavascriptObjectRef { id: old(self).next_id, kind: JavascriptObjectKind::Number { value } };
                &&& r == Some(o)
                &&& final(self).table@ == old(self).table@.push(o)
                &&& final(self).next_id == old(self).next_id + 1
            },
    {
        self.allocate(JavascriptObjectKind::Number { value })
    }

    pub fn allocate_string(&mut self, text: String, number: u64) -> (r: Option<JavascriptObjectRef>)
        ensures
            old(self).next_id == u64::MAX ==> r is None && *final(self) == *old(self),
            old(self).next_id < u64::MAX ==> {
                let o = JavascriptObjectRef { id: old(self).next_id, kind: JavascriptObjectKind::String { text, number } };
                &&& r == Some(o)
                &&& final(self).table@ == old(self).table@.push(o)
                &&& final(self).next_id == old(self).next_id + 1
            },
    {
        self.allocate(JavascriptObjectKind::String { text, number })
    }

    /// Removes every entry whose id is not in `live_ids`. Handles copied out
    /// of the table stay valid: only the table's bookkeeping changes.
    pub fn deallocate_except_ids(&mut self, live_ids: &Vec<u64>)
        ensures
            final(self).table@ == swept(old(self).table@, live_ids@.to_set()),
            final(self).next_id == old(self).next_id,
    {
        let mut kept: Vec<JavascriptObjectRef> = Vec::new();
        let mut i: usize = 0;
        while i < self.table.len()
            invariant
                i <= self.table.len(),
                kept@ == swept(self.table@.take(i as int), live_ids@.to_set()),
            decreases self.table.len() - i,
        {
            let mut found = false;
            let mut j: usize = 0;
            while j < live_ids.len()
                invariant
                    i < self.table.len(),
                    j <= live_ids.len(),
                    found == exists|k: int| 0 <= k < j && live_ids@[k] == self.table@[i as int].id,
                decreases live_ids.len() - j,
            {
                if live_ids[j] == self.table[i].id {
                    found = true;
                }
                j = j + 1;
            }
            proof {
                reveal(Seq::filter);
                assert(self.table@.take(i as int + 1).drop_last() =~= self.table@.take(i as int));
                assert(found == live_ids@.contains(self.table@[i as int].id));
                assert(live_ids@.to_set().contains(self.table@[i as int].id) == live_ids@.contains(self.table@[i as int].id));

            }
            if found {
                kept.push(self.table[i].duplicate());
            }
            i = i + 1;
        }
        proof {
            reveal(Seq::filter);
            assert(self.table@.take(self.table@.len() as int) =~= self.table@);
        }
        self.table = kept;
    }
}

} // verus!
