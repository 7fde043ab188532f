//! The fixed-capacity evaluation stack.

use super::error::{VmError, VmResult};
use super::types::Value;
use vstd::prelude::*;

verus! {

/// A fixed-capacity array of values with a position cursor.  Pushing past
/// capacity and popping at position zero are fatal faults, never silently
/// repaired.  A vacated slot is cleared back to `Null`, defending against
/// stale reads.
#[derive(Debug)]
pub struct Stack {
    pub pos: usize,
    pub items: Vec<Value>,
}

impl Stack {
    /// The live entries, oldest first.
    pub open spec fn entries(&self) -> Seq<Value> {
        self.items@.take(self.pos as int)
    }

    /// How many values fit.
    pub open spec fn capacity(&self) -> int {
        self.items@.len() as int
    }

    /// The cursor stays inside the backing store.
    pub open spec fn inv(&self) -> bool {
        self.pos <= self.items@.len()
    }

    /// An empty stack with room for `size` values.
    pub fn new(size: usize) -> (r: Stack)
        ensures
            r.inv(),
            r.entries() == Seq::<Value>::empty(),
            r.capacity() == size,
    {
        let mut items: Vec<Value> = Vec::new();
        while items.len() < size
            invariant
                items@.len() <= size,
            decreases size - items.len(),
        {
            items.push(Value::Null);
        }
        let r = Stack { pos: 0, items };
        proof {
            assert(r.entries() =~= Seq::<Value>::empty());
        }
        r
    }

    /// Take the newest value off the stack.  Popping an empty stack is a
    /// fatal fault.
    pub fn pop(&mut self) -> (r: VmResult<Value>)
        requires
            old(self).inv(),
        ensures
            final(self).inv(),
            final(self).capacity() == old(self).capacity(),
            if old(self).entries().len() == 0 {
                r matches Err(e) && e is StackUnderflow && final(self).entries() == old(
                    self,
                ).entries()
            } else {
                r matches Ok(v) && v == old(self).entries().last() && final(self).entries() == old(
                    self,
                ).entries().drop_last()
            },
    {
        if self.pos == 0 {
            return Err(VmError::StackUnderflow);
        }
        let actual = self.pos - 1;
        let mut item = Value::Null;
        core::mem::swap(&mut item, &mut self.items[actual]);
        self.pos = actual;
        proof {
            assert(final(self).entries() =~= old(self).entries().drop_last());
        }
        Ok(item)
    }

    /// Discard up to `size` of the newest values.
    pub fn clear(&mut self, size: usize)
        requires
            old(self).inv(),
        ensures
            final(self).inv(),
            final(self).capacity() == old(self).capacity(),
            final(self).entries() == old(self).entries().take(
                if size <= old(self).entries().len() {
                    old(self).entries().len() - size as int
                } else {
                    0
                },
            ),
    {
        let keep = if size <= self.pos {
            self.pos - size
        } else {
            0
        };
        self.pos = keep;
        proof {
            assert(final(self).entries() =~= old(self).entries().take(keep as int));
        }
    }

    /// Whether the stack holds no values.
    pub fn is_empty(&self) -> (r: bool)
        requires
            self.inv(),
        ensures
            r == (self.entries().len() == 0),
    {
        self.pos == 0
    }

    /// Put a value on the stack.  Pushing at capacity is a fatal fault.
    pub fn push(&mut self, value: Value) -> (r: VmResult<()>)
        requires
            old(self).inv(),
        ensures
            final(self).inv(),
            final(self).capacity() == old(self).capacity(),
            if old(self).entries().len() == old(self).capacity() {
                r matches Err(e) && e is StackOverflow && final(self).entries() == old(
                    self,
                ).entries()
            } else {
                r matches Ok(u) && final(self).entries() == old(self).entries().push(value)
            },
    {
        if self.pos >= self.items.len() {
            return Err(VmError::StackOverflow);
        }
        self.items[self.pos] = value;
        self.pos = self.pos + 1;
        proof {
            assert(final(self).entries() =~= old(self).entries().push(value));
        }
        Ok(())
    }
}

} // verus!
