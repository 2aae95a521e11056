//! The heap: an append-only store of objects, addressed by index.

use vstd::prelude::*;
use vstd::string::*;

use crate::error::VmError;

verus! {

/// An object: the descriptor of its run-time type, and its cells. The cells
/// of a class instance follow the instance-field layout of its class; those
/// of an array are its elements, one after another.
#[derive(Debug)]
pub struct HeapItem {
    pub field_descriptor: String,
    pub data: Vec<u32>,
}

/// The objects of the machine. A reference is an index into `data`;
/// reference 0 is `null`, which stands for an empty object that is always
/// there. Objects are never removed, so a reference stays good.
#[derive(Debug)]
pub struct Heap {
    pub data: Vec<HeapItem>,
}

/// The mathematical content of a [`HeapItem`].
pub struct ObjectView {
    pub descriptor: Seq<char>,
    pub cells: Seq<u32>,
}

impl View for HeapItem {
    type V = ObjectView;

    open spec fn view(&self) -> ObjectView {
        ObjectView { descriptor: self.field_descriptor@, cells: self.data@ }
    }
}

/// The descriptor of the object that `null` stands for.
pub open spec fn null_descriptor() -> Seq<char> {
    seq!['n', 'u', 'l', 'l']
}

impl Heap {
    /// The null object is there, it is empty, and every index fits in a
    /// reference.
    pub open spec fn wf(&self) -> bool {
        &&& 1 <= self.data@.len() <= 0x1_0000_0000
        &&& self.data@[0]@.descriptor == null_descriptor()
        &&& self.data@[0]@.cells.len() == 0
    }

    /// The objects, by their content.
    pub open spec fn objects(&self) -> Seq<ObjectView> {
        Seq::new(self.data@.len(), |i: int| self.data@[i]@)
    }

    /// A heap that holds the null object alone.
    pub fn new() -> (h: Heap)
        ensures
            h.wf(),
            h.data@.len() == 1,
    {
        proof {
            reveal_strlit("null");
        }
        let mut h = Heap { data: Vec::new() };
        let name = "null".to_owned();
        assert(name@ =~= null_descriptor());
        h.data.push(HeapItem { field_descriptor: name, data: Vec::new() });
        h
    }

    /// Whether the heap can take no further object: the next index would
    /// not fit in a reference.
    pub fn is_full(&self) -> (r: bool)
        ensures
            r == (self.data@.len() > u32::MAX),
    {
        self.data.len() > u32::MAX as usize
    }

    /// Appends an object and returns the reference to it.
    pub fn store(&mut self, field_ref: String, data: Vec<u32>) -> (r: u32)
        requires
            old(self).wf(),
            old(self).data@.len() <= u32::MAX,
        ensures
            final(self).wf(),
            r == old(self).data@.len(),
            final(self).data@ == old(self).data@.push(HeapItem { field_descriptor: field_ref, data }),
    {
        self.data.push(HeapItem { field_descriptor: field_ref, data });
        (self.data.len() - 1) as u32
    }

    /// The object that `reference` leads to; `None` where it leads to none.
    pub fn load(&self, reference: u32) -> (r: Option<&HeapItem>)
        ensures
            r == if reference < self.data@.len() {
                Some(&self.data@[reference as int])
            } else {
                None
            },
    {
        if (reference as usize) < self.data.len() {
            Some(&self.data[reference as usize])
        } else {
            None
        }
    }

    /// The object that `reference` leads to, for writing.
    pub fn load_mut(&mut self, reference: u32) -> (r: &mut HeapItem)
        requires
            reference < old(self).data@.len(),
        ensures
            *r == old(self).data@[reference as int],
            final(self).data@ == old(self).data@.update(reference as int, *final(r)),
    {
        &mut self.data[reference as usize]
    }
}

/// A vector of `n` zero cells.
pub fn zeroed(n: usize) -> (r: Vec<u32>)
    ensures
        r@ == Seq::new(n as nat, |i: int| 0u32),
{
    let mut cells: Vec<u32> = Vec::new();
    let mut i: usize = 0;
    while i < n
        invariant
            i <= n,
            cells@ == Seq::new(i as nat, |k: int| 0u32),
        decreases n - i,
    {
        cells.push(0);
        i = i + 1;
        assert(cells@ =~= Seq::new(i as nat, |k: int| 0u32));
    }
    cells
}

/// Whether `after` is `before` with one more object, `object`.
pub open spec fn heap_grew(before: Heap, after: Heap, object: ObjectView) -> bool {
    &&& after.data@.len() == before.data@.len() + 1
    &&& after.data@.drop_last() == before.data@
    &&& after.data@.last()@ == object
}

/// The number of cells that an array element with this descriptor takes:
/// 2 for `J` and `D`, 1 for every other.
pub open spec fn descriptor_cells(descriptor: Seq<char>) -> int {
    if descriptor.len() >= 1 && (descriptor[0] == 'J' || descriptor[0] == 'D') {
        2
    } else {
        1
    }
}

/// The array that `allocate_array` makes: its descriptor is `[` and the
/// descriptor of its elements, and its cells are all zero.
pub open spec fn blank_array(element: Seq<char>, length: int) -> ObjectView {
    ObjectView {
        descriptor: seq!['['] + element,
        cells: Seq::new((length * descriptor_cells(element)) as nat, |i: int| 0u32),
    }
}

/// The number of cells that an array element with this descriptor takes.
pub fn cells_per_element(descriptor: &str) -> (r: usize)
    ensures
        r == descriptor_cells(descriptor@),
{
    if descriptor.unicode_len() >= 1 {
        let c = descriptor.get_char(0);
        if c == 'J' || c == 'D' {
            2
        } else {
            1
        }
    } else {
        1
    }
}

impl Heap {
    /// Makes an array of `length` elements with descriptor
    /// `element_descriptor`, all zero, and returns the reference to it.
    ///
    /// Fails with `OutOfMemory`, and only then, where the heap is full or
    /// the cells of the array are more than the machine can count.
    pub fn allocate_array(&mut self, element_descriptor: &str, length: usize) -> (r: Result<
        u32,
        VmError,
    >)
        requires
            old(self).wf(),
        ensures
            final(self).wf(),
            if old(self).data@.len() > u32::MAX || length * descriptor_cells(element_descriptor@)
                > usize::MAX {
                r == Err::<u32, VmError>(VmError::OutOfMemory) && *final(self) == *old(self)
            } else {
                r == Ok::<u32, VmError>(old(self).data@.len() as u32) && heap_grew(
                    *old(self),
                    *final(self),
                    blank_array(element_descriptor@, length as int),
                )
            },
    {
        proof {
            reveal_strlit("[");
        }
        if self.is_full() {
            return Err(VmError::OutOfMemory);
        }
        let width = cells_per_element(element_descriptor);
        if width == 2 && length > usize::MAX / 2 {
            return Err(VmError::OutOfMemory);
        }
        let mut descriptor = "[".to_owned();
        descriptor.append(element_descriptor);
        assert(descriptor@ =~= seq!['['] + element_descriptor@);
        let r = self.store(descriptor, zeroed(length * width));
        assert(self.data@.drop_last() =~= old(self).data@);
        Ok(r)
    }
}

} // verus!
