//! The memory that all frames share: the heap and the method area, and the
//! life of a class in them, from its bytes to its initialization.
//!
//! Nothing here reads a file or runs a method. A class whose bytes are
//! needed is asked of the host by name, and the class initializer that must
//! run is handed out as a frame.

use vstd::prelude::*;
use vstd::string::*;

use crate::descriptor::{MethodDescriptor, MethodDescriptorView, ReturnDescriptor};
use crate::deserialize::{deserialize_class_file, spec_class_file, views};
use crate::error::VmError;
use crate::frame::{invocation_failure, is_fresh_frame, Frame};
use crate::heap::{heap_grew, zeroed, Heap, ObjectView};
use crate::klass::{lemma_index_of_same_names, 
    add_class_failure, find_method, hierarchy_ok, index_of, instance_index, is_new_record,
    lemma_index_of, lemma_update_keeps_wf, method_index, same_identity, total_width, ArrayKlass,
    InstanceKlass, Klass, MethodArea,
};
use crate::parse::{parse, spec_parse, Class, ClassView, Constant};

verus! {

/// The heap, the method area, and the classes that are being loaded.
///
/// A class whose bytes have arrived waits in `loading` until its superclass
/// and its interfaces are loaded; the last of `loading` is the one that is
/// looked at next.
#[derive(Debug)]
pub struct GlobalMemory {
    pub heap: Heap,
    pub method_area: MethodArea,
    pub loading: Vec<Class>,
}

/// What `ensure_class` found or did.
#[derive(Debug)]
pub enum Ensured {
    /// The class is initialized, or its initializer is running.
    Ready,
    /// The class with this name must be loaded: the host is to hand its
    /// bytes to `load_class`.
    Load(String),
    /// The class has just been marked as initialized, and this frame is the
    /// invocation of its class initializer, which is to run before anything
    /// else.
    Run(Frame),
    /// A class that was being loaded has entered the method area, and more
    /// is to be done: ask again.
    Again,
}

/// What `advance_loading` found or did.
#[derive(Debug)]
pub enum Loading {
    /// No class is being loaded.
    Idle,
    /// The class that is looked at needs this class loaded first.
    Missing(String),
    /// The class that was looked at has been added to the method area.
    Added,
}

/// The name of the class whose instances are the mirror objects.
pub open spec fn class_class_name() -> Seq<char> {
    seq!['j', 'a', 'v', 'a', '/', 'l', 'a', 'n', 'g', '/', 'C', 'l', 'a', 's', 's']
}

/// The descriptor of the instances of the class named `name`.
pub open spec fn instance_descriptor(name: Seq<char>) -> Seq<char> {
    seq!['L'] + name + seq![';']
}

/// The object that a new instance of the class at position `class` is: all
/// its fields zero.
pub open spec fn blank_instance(classes: Seq<Klass>, class: int) -> ObjectView {
    ObjectView {
        descriptor: instance_descriptor(classes[class].spec_name()),
        cells: Seq::new(total_width(classes[class]->Instance_0.fields@), |i: int| 0u32),
    }
}

/// The first class that `class` needs loaded and that is not: its
/// superclass, or else the first such of its interfaces.
pub open spec fn missing_of(classes: Seq<Klass>, class: Class) -> Option<Seq<char>> {
    if class.super_class is Some && index_of(classes, class.super_class->0@) is None {
        Some(class.super_class->0@)
    } else {
        first_missing(classes, views(class.interfaces@))
    }
}

/// The first of `names` that no record bears.
pub open spec fn first_missing(classes: Seq<Klass>, names: Seq<Seq<char>>) -> Option<Seq<char>>
    decreases names.len(),
{
    if names.len() == 0 {
        None
    } else {
        match first_missing(classes, names.drop_last()) {
            Some(name) => Some(name),
            None => if index_of(classes, names.last()) is None {
                Some(names.last())
            } else {
                None
            },
        }
    }
}

proof fn lemma_first_missing_prefix(classes: Seq<Klass>, names: Seq<Seq<char>>, n: int)
    requires
        0 <= n <= names.len(),
    ensures
        first_missing(classes, names.subrange(0, n)) is Some ==> first_missing(classes, names)
            == first_missing(classes, names.subrange(0, n)),
    decreases names.len() - n,
{
    if n == names.len() {
        assert(names.subrange(0, n) =~= names);
    } else {
        lemma_first_missing_prefix(classes, names, n + 1);
        assert(names.subrange(0, n + 1).drop_last() =~= names.subrange(0, n));
    }
}

/// The text `L<name>;`.
pub fn make_instance_descriptor(name: &str) -> (r: String)
    ensures
        r@ == instance_descriptor(name@),
{
    proof {
        reveal_strlit("L");
        reveal_strlit(";");
    }
    let mut text = "L".to_owned();
    text.append(name);
    text.append(";");
    assert(text@ =~= instance_descriptor(name@));
    text
}

/// The text `java/lang/Class`.
fn class_class() -> (r: String)
    ensures
        r@ == class_class_name(),
{
    proof {
        reveal_strlit("java/lang/Class");
    }
    let text = "java/lang/Class".to_owned();
    assert(text@ =~= class_class_name());
    text
}

impl GlobalMemory {
    /// The heap and the method area are well-formed, and so is every class
    /// that is being loaded.
    pub open spec fn wf(&self) -> bool {
        &&& self.heap.wf()
        &&& self.method_area.wf()
        &&& forall|i: int| 0 <= i < self.loading@.len() ==> (#[trigger] self.loading@[i]).wf()
    }

    /// A memory with the null object and no class.
    pub fn new() -> (r: GlobalMemory)
        ensures
            r.wf(),
            r.heap.data@.len() == 1,
            r.method_area.classes@.len() == 0,
            r.loading@.len() == 0,
    {
        GlobalMemory { heap: Heap::new(), method_area: MethodArea::new(), loading: Vec::new() }
    }

    /// Why no instance of the class at position `class` can be made, if
    /// none can: there is no class at that position (`ClassNotFound`), or
    /// the heap is full (`OutOfMemory`).
    pub open spec fn instance_failure(&self, class: int) -> Option<VmError> {
        if !(0 <= class < self.method_area.classes@.len() && self.method_area.classes@[class]
            is Instance) {
            Some(VmError::ClassNotFound)
        } else if self.heap.data@.len() > u32::MAX {
            Some(VmError::OutOfMemory)
        } else {
            None
        }
    }

    /// Makes an instance of the class at position `class`, with every field
    /// zero, and returns the reference to it.
    pub fn allocate_klass(&mut self, class: usize) -> (r: Result<u32, VmError>)
        requires
            old(self).wf(),
        ensures
            final(self).wf(),
            final(self).method_area == old(self).method_area,
            final(self).loading == old(self).loading,
            match old(self).instance_failure(class as int) {
                Some(e) => r == Err::<u32, VmError>(e) && final(self).heap == old(self).heap,
                None => r == Ok::<u32, VmError>(old(self).heap.data@.len() as u32) && heap_grew(
                    old(self).heap,
                    final(self).heap,
                    blank_instance(old(self).method_area.classes@, class as int),
                ),
            },
    {
        if class >= self.method_area.classes.len() {
            return Err(VmError::ClassNotFound);
        }
        let (descriptor, cells) = match &self.method_area.classes[class] {
            Klass::Instance(k) => {
                proof {
                    assert(k.wf());
                }
                let width = match crate::klass::measure_layout(&k.fields) {
                    Some(w) => w,
                    None => 0,
                };
                (make_instance_descriptor(k.name.as_str()), zeroed(width))
            },
            Klass::Array(_) => {
                return Err(VmError::ClassNotFound);
            },
        };
        if self.heap.is_full() {
            return Err(VmError::OutOfMemory);
        }
        let r = self.heap.store(descriptor, cells);
        assert(self.heap.data@.drop_last() =~= old(self).heap.data@);
        Ok(r)
    }

    /// Why no mirror object can be made, if none can: the class
    /// `java/lang/Class` is not loaded (`ClassNotFound`), or the heap is
    /// full (`OutOfMemory`).
    pub open spec fn mirror_failure(&self) -> Option<VmError> {
        match instance_index(self.method_area.classes@, class_class_name()) {
            None => Some(VmError::ClassNotFound),
            Some(i) => self.instance_failure(i),
        }
    }

    /// The object that a new mirror is: a blank instance of
    /// `java/lang/Class`.
    pub open spec fn blank_mirror(&self) -> ObjectView {
        blank_instance(
            self.method_area.classes@,
            instance_index(self.method_area.classes@, class_class_name())->0,
        )
    }

    /// Makes a mirror object: an instance of `java/lang/Class`.
    pub fn new_mirror(&mut self) -> (r: Result<u32, VmError>)
        requires
            old(self).wf(),
        ensures
            final(self).wf(),
            final(self).method_area == old(self).method_area,
            final(self).loading == old(self).loading,
            match old(self).mirror_failure() {
                Some(e) => r == Err::<u32, VmError>(e) && final(self).heap == old(self).heap,
                None => r == Ok::<u32, VmError>(old(self).heap.data@.len() as u32) && heap_grew(
                    old(self).heap,
                    final(self).heap,
                    old(self).blank_mirror(),
                ),
            },
    {
        let name = class_class();
        proof {
            lemma_index_of(self.method_area.classes@, class_class_name());
        }
        match self.method_area.find(name.as_str()) {
            Some(i) => self.allocate_klass(i),
            None => Err(VmError::ClassNotFound),
        }
    }

    /// Registers the array class with descriptor `array_type`, with a
    /// mirror of its own, unless it is registered already.
    ///
    /// Fails as `new_mirror` does, where the class is not registered yet.
    pub fn ensure_array(&mut self, array_type: String) -> (r: Result<(), VmError>)
        requires
            old(self).wf(),
        ensures
            final(self).wf(),
            final(self).loading == old(self).loading,
            if index_of(old(self).method_area.classes@, array_type@) is Some {
                r is Ok && final(self).heap == old(self).heap && final(self).method_area == old(self).method_area
            } else {
                match old(self).mirror_failure() {
                    Some(e) => r == Err::<(), VmError>(e) && final(self).heap == old(self).heap
                        && final(self).method_area == old(self).method_area,
                    None => {
                        &&& r is Ok
                        &&& heap_grew(old(self).heap, final(self).heap, old(self).blank_mirror())
                        &&& final(self).method_area.classes@ == old(self).method_area.classes@.push(
                            Klass::Array(
                                ArrayKlass {
                                    name: array_type,
                                    java_clone: Some(old(self).heap.data@.len() as u32),
                                },
                            ),
                        )
                    },
                }
            },
    {
        if self.method_area.find(array_type.as_str()).is_some() {
            return Ok(());
        }
        let mirror = match self.new_mirror() {
            Ok(m) => m,
            Err(e) => {
                return Err(e);
            },
        };
        let ghost before = self.method_area.classes@;
        proof {
            lemma_index_of(before, array_type@);
        }
        let record = Klass::Array(ArrayKlass { name: array_type, java_clone: Some(mirror) });
        self.method_area.classes.push(record);
        proof {
            let after = self.method_area.classes@;
            assert forall|i: int| 0 <= i < after.len() implies #[trigger] hierarchy_ok(after, i) by {
                if i < before.len() {
                    assert(hierarchy_ok(before, i));
                }
            }
        }
        Ok(())
    }
}

/// What the bytes of a class file mean, if they mean anything.
pub open spec fn load_plan(bytes: Seq<u8>) -> Result<ClassView, VmError> {
    match spec_class_file(bytes) {
        None => Err(VmError::Format),
        Some(file) => spec_parse(file),
    }
}

/// Whether a class named `name` is among those that are being loaded.
pub open spec fn is_loading(loading: Seq<Class>, name: Seq<char>) -> bool {
    exists|i: int| 0 <= i < loading.len() && (#[trigger] loading[i]).this_class@ == name
}

/// Whether the record at position `i` is that of a class that is not
/// linked.
pub open spec fn is_unlinked(classes: Seq<Klass>, i: int) -> bool {
    0 <= i < classes.len() && classes[i] is Instance
        && classes[i]->Instance_0.constant_pool is None
}

/// The classes that linking the class at position `i` links: the class
/// itself and the superclasses above it, up to the first that is linked,
/// the class first and the one nearest to the root last. Empty for a class
/// that is linked.
pub open spec fn unlinked_chain(classes: Seq<Klass>, i: int) -> Seq<int>
    decreases i,
{
    if is_unlinked(classes, i) {
        match classes[i]->Instance_0.super_index {
            Some(j) => if j < i {
                seq![i] + unlinked_chain(classes, j as int)
            } else {
                seq![i]
            },
            None => seq![i],
        }
    } else {
        Seq::empty()
    }
}

/// The classes of a chain are not linked, and each stands before the one
/// that inherits from it.
pub proof fn lemma_unlinked_chain(classes: Seq<Klass>, i: int)
    ensures
        forall|m: int|
            0 <= m < unlinked_chain(classes, i).len() ==> is_unlinked(
                classes,
                #[trigger] unlinked_chain(classes, i)[m],
            ) && unlinked_chain(classes, i)[m] <= i,
        forall|m: int, q: int|
            0 <= m < q < unlinked_chain(classes, i).len() ==> (#[trigger] unlinked_chain(
                classes,
                i,
            )[q]) < #[trigger] unlinked_chain(classes, i)[m],
        unlinked_chain(classes, i).len() > 0 ==> unlinked_chain(classes, i)[0] == i,
        is_unlinked(classes, i) ==> unlinked_chain(classes, i).len() > 0,
    decreases i,
{
    if is_unlinked(classes, i) {
        match classes[i]->Instance_0.super_index {
            Some(j) => {
                if j < i {
                    lemma_unlinked_chain(classes, j as int);
                    let rest = unlinked_chain(classes, j as int);
                    let all = unlinked_chain(classes, i);
                    assert(all =~= seq![i] + rest);
                    assert forall|m: int| 0 <= m < all.len() implies is_unlinked(
                        classes,
                        #[trigger] all[m],
                    ) && all[m] <= i by {
                        if m > 0 {
                            assert(all[m] == rest[m - 1]);
                        }
                    }
                    assert forall|m: int, q: int| 0 <= m < q < all.len() implies (#[trigger] all[q])
                        < #[trigger] all[m] by {
                        assert(all[q] == rest[q - 1]);
                        if m > 0 {
                            assert(all[m] == rest[m - 1]);
                        }
                    }
                }
            },
            None => {},
        }
    }
}

/// Whether `after` is the record `before` once linked: it has a resolved
/// pool as long as the raw pool, in which nothing is resolved yet; its
/// static storage is as wide as the static-field layout and all zero; and
/// its mirror is `mirror`.
pub open spec fn is_linked_record(before: Klass, after: Klass, mirror: u32) -> bool {
    &&& same_identity(before, after)
    &&& after is Instance
    &&& after->Instance_0.constant_pool is Some
    &&& after->Instance_0.constant_pool->0@.len()
        == after->Instance_0.parsed_class.raw_pool@.len()
    &&& forall|i: int|
        0 <= i < after->Instance_0.constant_pool->0@.len() ==> (
        #[trigger] after->Instance_0.constant_pool->0@[i]) is Placeholder
    &&& after->Instance_0.static_field_values@ == Seq::new(
        total_width(after->Instance_0.static_fields@),
        |i: int| 0u32,
    )
    &&& after->Instance_0.java_clone == Some(mirror)
    &&& after->Instance_0.initialized == before->Instance_0.initialized
}

/// Whether `after` is the record `before` once marked as initialized.
pub open spec fn is_initialized_record(before: Klass, after: Klass) -> bool {
    &&& same_identity(before, after)
    &&& after is Instance
    &&& after->Instance_0.initialized
    &&& after->Instance_0.constant_pool == before->Instance_0.constant_pool
    &&& after->Instance_0.static_field_values == before->Instance_0.static_field_values
    &&& after->Instance_0.java_clone == before->Instance_0.java_clone
}

/// The name of the class initializer.
pub open spec fn initializer_name() -> Seq<char> {
    seq!['<', 'c', 'l', 'i', 'n', 'i', 't', '>']
}

/// The descriptor `()V`.
pub open spec fn no_arguments() -> MethodDescriptorView {
    MethodDescriptorView { parameters: Seq::empty(), result: None }
}

/// The position of the class initializer among the methods of a class: the
/// method named `<clinit>` with descriptor `()V`.
pub open spec fn initializer_of(k: InstanceKlass) -> Option<int> {
    method_index(k.parsed_class.methods@, initializer_name(), no_arguments())
}

/// What `load_class` promises: `after` is the memory that it leaves of
/// `before`, and `r` what it returns.
pub open spec fn load_class_post(
    before: GlobalMemory,
    after: GlobalMemory,
    bytes: Seq<u8>,
    r: Result<(), VmError>,
) -> bool {
    &&& after.heap == before.heap
    &&& after.method_area == before.method_area
    &&& match load_plan(bytes) {
        Err(e) => r == Err::<(), VmError>(e) && after.loading == before.loading,
        Ok(class) => if index_of(before.method_area.classes@, class.this_class) is Some {
            r is Ok && after.loading == before.loading
        } else if is_loading(before.loading@, class.this_class) {
            r == Err::<(), VmError>(VmError::Unexpected) && after.loading == before.loading
        } else {
            &&& r is Ok
            &&& after.loading@.len() == before.loading@.len() + 1
            &&& after.loading@.drop_last() == before.loading@
            &&& after.loading@.last()@ == class
        },
    }
}

/// What `advance_loading` promises: `after` is the memory that it leaves of
/// `before`, and `r` what it returns.
pub open spec fn advance_loading_post(
    before: GlobalMemory,
    after: GlobalMemory,
    r: Result<Loading, VmError>,
) -> bool {
    let classes = before.method_area.classes@;
    &&& after.heap == before.heap
    &&& if before.loading@.len() == 0 {
        &&& r is Ok
        &&& r->Ok_0 is Idle
        &&& after.loading == before.loading
        &&& after.method_area == before.method_area
    } else {
        let class = before.loading@.last();
        match missing_of(classes, class) {
            Some(name) => {
                &&& r is Ok
                &&& r->Ok_0 is Missing
                &&& r->Ok_0->Missing_0@ == name
                &&& after.loading == before.loading
                &&& after.method_area == before.method_area
            },
            None => {
                &&& after.loading@ == before.loading@.drop_last()
                &&& match add_class_failure(classes, class.this_class.name, class) {
                    Some(e) => r == Err::<Loading, VmError>(e) && after.method_area.classes@
                        == classes,
                    None => {
                        &&& r is Ok
                        &&& r->Ok_0 is Added
                        &&& after.method_area.classes@.len() == classes.len() + 1
                        &&& after.method_area.classes@.drop_last() == classes
                        &&& is_new_record(
                            classes,
                            class.this_class.name,
                            class,
                            after.method_area.classes@.last(),
                        )
                    },
                }
            },
        }
    }
}

/// What `link_class` promises: `after` is the memory that it leaves of
/// `before`, and `r` what it returns.
///
/// The classes of `unlinked_chain` are linked, the one nearest to the root
/// first: each is given a resolved pool with nothing resolved, static
/// storage that is all zero, and a mirror of its own, a blank instance of
/// `java/lang/Class` that is appended to the heap. Nothing else changes.
/// The call fails, and then changes nothing, with `ClassNotFound` where
/// there is no class at the position or `java/lang/Class` is not loaded,
/// and with `OutOfMemory` where the heap cannot take the mirrors.
pub open spec fn link_class_post(
    before: GlobalMemory,
    after: GlobalMemory,
    class: usize,
    r: Result<(), VmError>,
) -> bool {
    let classes = before.method_area.classes@;
    let linked = after.method_area.classes@;
    let chain = unlinked_chain(classes, class as int);
    let count = chain.len() as int;
    let objects = before.heap.data@.len() as int;
    if !(class < classes.len() && classes[class as int] is Instance) {
        r == Err::<(), VmError>(VmError::ClassNotFound) && after == before
    } else if count == 0 {
        r is Ok && after == before
    } else if instance_index(classes, class_class_name()) is None {
        r == Err::<(), VmError>(VmError::ClassNotFound) && after == before
    } else if objects + count > 0x1_0000_0000 {
        r == Err::<(), VmError>(VmError::OutOfMemory) && after == before
    } else {
        &&& r is Ok
        &&& after.loading == before.loading
        &&& after.heap.data@.len() == objects + count
        &&& after.heap.data@.subrange(0, objects) == before.heap.data@
        &&& forall|k: int|
            0 <= k < count ==> (#[trigger] after.heap.data@[objects + k])@ == before.blank_mirror()
        &&& linked.len() == classes.len()
        &&& forall|m: int|
            0 <= m < count ==> is_linked_record(
                classes[#[trigger] chain[m]],
                linked[chain[m]],
                (objects + count - 1 - m) as u32,
            )
        &&& forall|j: int|
            0 <= j < classes.len() && !chain.contains(j) ==> (#[trigger] linked[j]) == classes[j]
    }
}

/// The positions of the records of a list, as integers.
pub open spec fn positions(list: Seq<usize>) -> Seq<int> {
    Seq::new(list.len(), |k: int| list[k] as int)
}

impl GlobalMemory {
    /// Takes the bytes of a class file that the host has read: decodes and
    /// parses them, and puts the class with those that are being loaded.
    /// The class enters the method area later, by `advance_loading`, after
    /// its superclass and its interfaces.
    ///
    /// A class that is loaded already is ignored. Fails as decoding and
    /// parsing do, and with `Unexpected` where a class of that name is
    /// being loaded already, as happens where a class is among its own
    /// superclasses.
    #[verifier::loop_isolation(false)]
    pub fn load_class(&mut self, bytes: &[u8]) -> (r: Result<(), VmError>)
        requires
            old(self).wf(),
        ensures
            final(self).wf(),
            load_class_post(*old(self), *final(self), bytes@, r),
    {
        let file = match deserialize_class_file(bytes) {
            Ok(f) => f,
            Err(e) => {
                return Err(e);
            },
        };
        let class = match parse(file) {
            Ok(c) => c,
            Err(e) => {
                return Err(e);
            },
        };
        if self.method_area.find(class.this_class.name.as_str()).is_some() {
            return Ok(());
        }
        let mut i: usize = 0;
        while i < self.loading.len()
            invariant
                i <= self.loading.len(),
                *self == *old(self),
                forall|k: int| 0 <= k < i ==> (#[trigger] self.loading@[k]).this_class@ != class.this_class@,
            decreases self.loading.len() - i,
        {
            if self.loading[i].this_class.name == class.this_class.name {
                return Err(VmError::Unexpected);
            }
            i = i + 1;
        }
        self.loading.push(class);
        assert(self.loading@.drop_last() =~= old(self).loading@);
        Ok(())
    }

    /// Looks at the class that was handed in last and is not yet in the
    /// method area. Where its superclass or one of its interfaces is not
    /// loaded, names the first such class; else adds the class to the
    /// method area.
    #[verifier::loop_isolation(false)]
    pub fn advance_loading(&mut self) -> (r: Result<Loading, VmError>)
        requires
            old(self).wf(),
        ensures
            final(self).wf(),
            advance_loading_post(*old(self), *final(self), r),
    {
        let count = self.loading.len();
        if count == 0 {
            return Ok(Loading::Idle);
        }
        let ghost classes = self.method_area.classes@;
        let class = &self.loading[count - 1];
        match &class.super_class {
            Some(info) => {
                if self.method_area.find(info.name.as_str()).is_none() {
                    return Ok(Loading::Missing(info.name.clone()));
                }
            },
            None => {},
        }
        let ghost names = views(class.interfaces@);
        let mut t: usize = 0;
        while t < class.interfaces.len()
            invariant
                t <= class.interfaces.len(),
                first_missing(classes, names.subrange(0, t as int)) is None,
            decreases class.interfaces.len() - t,
        {
            proof {
                assert(names.subrange(0, t + 1).drop_last() =~= names.subrange(0, t as int));
                lemma_first_missing_prefix(classes, names, t + 1);
            }
            if self.method_area.find(class.interfaces[t].name.as_str()).is_none() {
                return Ok(Loading::Missing(class.interfaces[t].name.clone()));
            }
            t = t + 1;
        }
        assert(names.subrange(0, t as int) =~= names);
        let class = match self.loading.pop() {
            Some(c) => c,
            None => {
                return Ok(Loading::Idle);
            },
        };
        let name = class.this_class.name.clone();
        match self.method_area.add_class(name, class) {
            Ok(()) => Ok(Loading::Added),
            Err(e) => Err(e),
        }
    }

    /// Links the class at position `target`, which is not linked: gives it
    /// a resolved pool with nothing resolved, static storage that is all
    /// zero, and a new mirror.
    fn link_one(&mut self, target: usize) -> (r: Result<(), VmError>)
        requires
            old(self).wf(),
            is_unlinked(old(self).method_area.classes@, target as int),
            old(self).mirror_failure() is None,
        ensures
            final(self).wf(),
            r is Ok,
            final(self).loading == old(self).loading,
            heap_grew(old(self).heap, final(self).heap, old(self).blank_mirror()),
            final(self).method_area.classes@.len() == old(self).method_area.classes@.len(),
            is_linked_record(
                old(self).method_area.classes@[target as int],
                final(self).method_area.classes@[target as int],
                old(self).heap.data@.len() as u32,
            ),
            forall|j: int|
                0 <= j < old(self).method_area.classes@.len() && j != target ==> (
                #[trigger] final(self).method_area.classes@[j]) == old(self).method_area.classes@[j],
    {
        let mirror = match self.new_mirror() {
            Ok(m) => m,
            Err(e) => {
                return Err(e);
            },
        };
        let ghost area = self.method_area;
        match &mut self.method_area.classes[target] {
            Klass::Instance(k) => {
                let mut pool: Vec<Constant> = Vec::new();
                let mut n: usize = 0;
                while n < k.parsed_class.raw_pool.len()
                    invariant
                        n <= k.parsed_class.raw_pool.len(),
                        pool@.len() == n,
                        forall|i: int| 0 <= i < n ==> (#[trigger] pool@[i]) is Placeholder,
                    decreases k.parsed_class.raw_pool.len() - n,
                {
                    pool.push(Constant::Placeholder);
                    n = n + 1;
                }
                let width = match crate::klass::measure_layout(&k.static_fields) {
                    Some(w) => w,
                    None => 0,
                };
                k.constant_pool = Some(pool);
                k.static_field_values = zeroed(width);
                k.java_clone = Some(mirror);
            },
            Klass::Array(_) => {},
        }
        proof {
            let record = self.method_area.classes@[target as int];
            assert(self.method_area.classes@ =~= area.classes@.update(target as int, record));
            lemma_update_keeps_wf(area, target as int, record);
        }
        Ok(())
    }

    /// The classes that linking the class at position `class` links, the
    /// class first.
    fn chain_of(&self, class: usize) -> (r: Vec<usize>)
        requires
            self.wf(),
        ensures
            positions(r@) == unlinked_chain(self.method_area.classes@, class as int),
    {
        let ghost classes = self.method_area.classes@;
        let mut chain: Vec<usize> = Vec::new();
        let mut next: Option<usize> = Some(class);
        loop
            invariant
                self.wf(),
                classes == self.method_area.classes@,
                unlinked_chain(classes, class as int) == positions(chain@) + match next {
                    Some(j) => unlinked_chain(classes, j as int),
                    None => Seq::empty(),
                },
            ensures
                positions(chain@) == unlinked_chain(classes, class as int),
            decreases
                    match next {
                        Some(j) => j + 1,
                        None => 0,
                    },
        {
            let j = match next {
                Some(j) => j,
                None => {
                    assert(positions(chain@) + Seq::<int>::empty() =~= positions(chain@));
                    break ;
                },
            };
            let unlinked = j < self.method_area.classes.len() && match &self.method_area.classes[j] {
                Klass::Instance(k) => k.constant_pool.is_none(),
                Klass::Array(_) => false,
            };
            if !unlinked {
                assert(positions(chain@) + Seq::<int>::empty() =~= positions(chain@));
                break ;
            }
            let above = match &self.method_area.classes[j] {
                Klass::Instance(k) => match k.super_index {
                    Some(s) => if s < j {
                        Some(s)
                    } else {
                        None
                    },
                    None => None,
                },
                Klass::Array(_) => None,
            };
            let ghost before = positions(chain@);
            chain.push(j);
            proof {
                let rest = match above {
                    Some(s) => unlinked_chain(classes, s as int),
                    None => Seq::<int>::empty(),
                };
                assert(positions(chain@) =~= before.push(j as int));
                assert(unlinked_chain(classes, j as int) =~= seq![j as int] + rest);
                assert(before + (seq![j as int] + rest) =~= before.push(j as int) + rest);
            }
            next = above;
        }
        chain
    }

    /// Links the class at position `class`, after the superclasses of it
    /// that are not linked yet, the one nearest to the root first.
    ///
    /// To link a class is to give it a resolved constant pool with nothing
    /// resolved, a mirror object of its own, and static storage that is
    /// all zero. A class that is linked already is left as it is.
    pub fn link_class(&mut self, class: usize) -> (r: Result<(), VmError>)
        requires
            old(self).wf(),
        ensures
            final(self).wf(),
            link_class_post(*old(self), *final(self), class, r),
    {
        if class >= self.method_area.classes.len() {
            return Err(VmError::ClassNotFound);
        }
        match &self.method_area.classes[class] {
            Klass::Instance(_) => {},
            Klass::Array(_) => {
                return Err(VmError::ClassNotFound);
            },
        }
        let targets = self.chain_of(class);
        let count = targets.len();
        if count == 0 {
            return Ok(());
        }
        let name = class_class();
        proof {
            lemma_index_of(self.method_area.classes@, class_class_name());
        }
        let mirrors = match self.method_area.find(name.as_str()) {
            Some(i) => match &self.method_area.classes[i] {
                Klass::Instance(_) => i,
                Klass::Array(_) => {
                    return Err(VmError::ClassNotFound);
                },
            },
            None => {
                return Err(VmError::ClassNotFound);
            },
        };
        if count as u64 > 0x1_0000_0000 - self.heap.data.len() as u64 {
            return Err(VmError::OutOfMemory);
        }
        let ghost classes = self.method_area.classes@;
        let ghost chain = unlinked_chain(classes, class as int);
        let ghost objects = self.heap.data@.len() as int;
        let ghost blank = self.blank_mirror();
        proof {
            lemma_unlinked_chain(classes, class as int);
        }
        let mut k: usize = count;
        while k > 0
            invariant
                k <= count,
                count == chain.len(),
                positions(targets@) == chain,
                self.wf(),
                self.loading == old(self).loading,
                classes == old(self).method_area.classes@,
                objects == old(self).heap.data@.len(),
                blank == old(self).blank_mirror(),
                objects + count <= 0x1_0000_0000,
                self.method_area.classes@.len() == classes.len(),
                instance_index(classes, class_class_name()) == Some(mirrors as int),
                mirrors < classes.len(),
                forall|j: int|
                    0 <= j < classes.len() ==> same_identity(
                        classes[j],
                        #[trigger] self.method_area.classes@[j],
                    ),
                forall|m: int|
                    0 <= m < count ==> is_unlinked(classes, #[trigger] chain[m]),
                forall|m: int, q: int|
                    0 <= m < q < count ==> (#[trigger] chain[q]) < #[trigger] chain[m],
                self.heap.data@.len() == objects + (count - k),
                self.heap.data@.subrange(0, objects) == old(self).heap.data@,
                forall|q: int|
                    0 <= q < count - k ==> (#[trigger] self.heap.data@[objects + q])@ == blank,
                forall|m: int|
                    k <= m < count ==> is_linked_record(
                        classes[#[trigger] chain[m]],
                        self.method_area.classes@[chain[m]],
                        (objects + count - 1 - m) as u32,
                    ),
                forall|j: int|
                    0 <= j < classes.len() && !chain.subrange(k as int, count as int).contains(j)
                        ==> (#[trigger] self.method_area.classes@[j]) == classes[j],
            decreases k,
        {
            k = k - 1;
            let target = targets[k];
            let ghost now = *self;
            proof {
                assert(chain[k as int] == target);
                assert(is_unlinked(classes, chain[k as int]));
                // The class is as it was: it is none of those linked so far.
                assert(!chain.subrange(k + 1, count as int).contains(target as int)) by {
                    if chain.subrange(k + 1, count as int).contains(target as int) {
                        let q = choose|q: int|
                            0 <= q < count - k - 1 && #[trigger] chain.subrange(
                                k + 1,
                                count as int,
                            )[q] == target;
                        assert(chain[k + 1 + q] < chain[k as int]);
                    }
                }
                assert(now.method_area.classes@[target as int] == classes[target as int]);
                // The class of the mirrors is found as before.
                assert forall|j: int| 0 <= j < classes.len() implies (#[trigger] classes[j]).spec_name()
                    == now.method_area.classes@[j].spec_name() by {
                    assert(same_identity(classes[j], now.method_area.classes@[j]));
                }
                lemma_index_of_same_names(classes, now.method_area.classes@, class_class_name());
                assert(same_identity(
                    classes[mirrors as int],
                    now.method_area.classes@[mirrors as int],
                ));
                assert(now.blank_mirror() == blank);
            }
            match self.link_one(target) {
                Ok(()) => {},
                Err(e) => {
                    return Err(e);
                },
            }
            proof {
                let linked = self.method_area.classes@;
                assert(self.heap.data@.subrange(0, objects) =~= old(self).heap.data@) by {
                    assert(self.heap.data@.drop_last() == now.heap.data@);
                    assert forall|x: int| 0 <= x < objects implies self.heap.data@[x] == old(
                        self,
                    ).heap.data@[x] by {
                        assert(self.heap.data@.drop_last()[x] == self.heap.data@[x]);
                        assert(now.heap.data@.subrange(0, objects)[x] == now.heap.data@[x]);
                    }
                }
                assert forall|q: int| 0 <= q < count - k implies (#[trigger] self.heap.data@[objects
                    + q])@ == blank by {
                    if q < count - k - 1 {
                        assert(self.heap.data@.drop_last()[objects + q] == self.heap.data@[objects
                            + q]);
                    }
                }
                assert forall|j: int| 0 <= j < classes.len() implies same_identity(
                    classes[j],
                    #[trigger] linked[j],
                ) by {
                    if j != target {
                        assert(linked[j] == now.method_area.classes@[j]);
                    }
                }
                assert forall|m: int| k <= m < count implies is_linked_record(
                    classes[#[trigger] chain[m]],
                    linked[chain[m]],
                    (objects + count - 1 - m) as u32,
                ) by {
                    if m > k {
                        assert(chain[m] < chain[k as int]);
                        assert(linked[chain[m]] == now.method_area.classes@[chain[m]]);
                    }
                }
                assert forall|j: int|
                    0 <= j < classes.len() && !chain.subrange(k as int, count as int).contains(
                        j,
                    ) implies (#[trigger] linked[j]) == classes[j] by {
                    assert(chain.subrange(k as int, count as int)[0] == target);
                    assert(j != target);
                    if chain.subrange(k + 1, count as int).contains(j) {
                        let q = choose|q: int|
                            0 <= q < count - k - 1 && #[trigger] chain.subrange(
                                k + 1,
                                count as int,
                            )[q] == j;
                        assert(chain.subrange(k as int, count as int)[q + 1] == j);
                    }
                    assert(linked[j] == now.method_area.classes@[j]);
                }
            }
        }
        proof {
            assert(chain.subrange(0, count as int) =~= chain);
        }
        Ok(())
    }
}

/// What `init_class` promises: `after` is the memory that it leaves of
/// `before`, and `r` what it returns.
///
/// A class that is initialized is left alone. Any other is marked as
/// initialized, and where it has a class initializer, a frame for it is
/// returned: so the frame of a class initializer is made once, on the only
/// step that takes the class from not initialized to initialized.
pub open spec fn init_class_post(
    before: GlobalMemory,
    after: GlobalMemory,
    class: usize,
    r: Result<Option<Frame>, VmError>,
) -> bool {
    let classes = before.method_area.classes@;
    &&& after.heap == before.heap
    &&& after.loading == before.loading
    &&& if !(class < classes.len() && classes[class as int] is Instance) {
        r == Err::<Option<Frame>, VmError>(VmError::ClassNotFound) && after.method_area
            == before.method_area
    } else if classes[class as int]->Instance_0.initialized {
        r is Ok && r->Ok_0 is None && after.method_area == before.method_area
    } else if classes[class as int]->Instance_0.constant_pool is None {
        r == Err::<Option<Frame>, VmError>(VmError::ClassNotFound) && after.method_area
            == before.method_area
    } else {
        let marked = {
            &&& after.method_area.classes@.len() == classes.len()
            &&& is_initialized_record(classes[class as int], after.method_area.classes@[class as int])
            &&& forall|j: int|
                0 <= j < classes.len() && j != class ==> (#[trigger] after.method_area.classes@[j])
                    == classes[j]
        };
        match initializer_of(classes[class as int]->Instance_0) {
            None => r is Ok && r->Ok_0 is None && marked,
            Some(m) => match invocation_failure(classes, class as int, m) {
                Some(e) => r == Err::<Option<Frame>, VmError>(e) && after.method_area
                    == before.method_area,
                None => {
                    &&& r is Ok
                    &&& r->Ok_0 is Some
                    &&& is_fresh_frame(after.method_area.classes@, class as int, m, r->Ok_0->0)
                    &&& marked
                },
            },
        }
    }
}

/// What `ensure_class` returns where it has taken a step of loading.
pub open spec fn as_loading(r: Result<Ensured, VmError>) -> Result<Loading, VmError> {
    match r {
        Ok(Ensured::Load(name)) => Ok(Loading::Missing(name)),
        Ok(Ensured::Again) => Ok(Loading::Added),
        Ok(_) => Ok(Loading::Idle),
        Err(e) => Err(e),
    }
}

/// What `ensure_class` returns where it has initialized the class.
pub open spec fn as_initializing(r: Result<Ensured, VmError>) -> Result<Option<Frame>, VmError> {
    match r {
        Ok(Ensured::Run(frame)) => Ok(Some(frame)),
        Ok(_) => Ok(None),
        Err(e) => Err(e),
    }
}

/// Whether `after` is what linking and then initializing the class at
/// position `class` leaves of `before`, `linked` being the memory between
/// the two, and `r` what is returned: where linking fails, its error, with
/// nothing changed; else what initializing the linked class gives.
pub open spec fn linked_then_initialized(
    before: GlobalMemory,
    linked: GlobalMemory,
    after: GlobalMemory,
    class: int,
    r: Result<Ensured, VmError>,
) -> bool {
    &&& linked.wf()
    &&& if link_class_post(before, linked, class as usize, Ok(())) {
        init_class_post(linked, after, class as usize, as_initializing(r)) && (r is Ok ==> r->Ok_0 is Run
            || r->Ok_0 is Ready)
    } else {
        &&& r is Err
        &&& link_class_post(before, linked, class as usize, Err(r->Err_0))
        &&& after == before
    }
}

/// What `ensure_class` promises: `after` is the memory that it leaves of
/// `before`, and `r` what it returns.
///
/// 1. A class that is initialized is `Ready`, and nothing changes.
/// 2. Else, where a class is being loaded, a step of loading is taken.
/// 3. Else, where the class is not loaded, it is asked for by `Load`.
/// 4. Else, where it is not linked, it is linked, after its superclasses,
///    and then initialized.
/// 5. Else it is initialized: marked, and its initializer handed out to
///    `Run`, if it has one.
pub open spec fn ensure_class_post(
    before: GlobalMemory,
    after: GlobalMemory,
    name: Seq<char>,
    r: Result<Ensured, VmError>,
) -> bool {
    let classes = before.method_area.classes@;
    match index_of(classes, name) {
        Some(i) => if classes[i].spec_is_initialized() {
            r is Ok && r->Ok_0 is Ready && after == before
        } else if before.loading@.len() > 0 {
            advance_loading_post(before, after, as_loading(r)) && (r is Ok ==> r->Ok_0 is Load
                || r->Ok_0 is Again)
        } else if classes[i]->Instance_0.constant_pool is None {
            exists|linked: GlobalMemory| #[trigger]
                linked_then_initialized(before, linked, after, i, r)
        } else {
            init_class_post(before, after, i as usize, as_initializing(r)) && (r is Ok
                ==> r->Ok_0 is Run || r->Ok_0 is Ready)
        },
        None => if before.loading@.len() > 0 {
            advance_loading_post(before, after, as_loading(r)) && (r is Ok ==> r->Ok_0 is Load
                || r->Ok_0 is Again)
        } else {
            r is Ok && r->Ok_0 is Load && r->Ok_0->Load_0@ == name && after == before
        },
    }
}

/// The text `<clinit>`.
fn initializer() -> (r: String)
    ensures
        r@ == initializer_name(),
{
    proof {
        reveal_strlit("<clinit>");
    }
    let text = "<clinit>".to_owned();
    assert(text@ =~= initializer_name());
    text
}

/// The descriptor `()V`.
pub fn void_descriptor() -> (r: MethodDescriptor)
    ensures
        r@ == no_arguments(),
        r.wf(),
{
    let d = MethodDescriptor {
        parameter_descriptors: Vec::new(),
        return_descriptor: ReturnDescriptor::VoidDescriptor,
    };
    assert(d@.parameters =~= Seq::<Seq<char>>::empty());
    d
}

impl GlobalMemory {
    /// Initializes the class at position `class`, which must be linked:
    /// marks it as initialized, and returns the frame in which its class
    /// initializer is to run, if it has one.
    ///
    /// The class is marked before its initializer has run, so that what
    /// asks for the class while the initializer runs finds it initialized.
    pub fn init_class(&mut self, class: usize) -> (r: Result<Option<Frame>, VmError>)
        requires
            old(self).wf(),
        ensures
            final(self).wf(),
            init_class_post(*old(self), *final(self), class, r),
            r is Ok && r->Ok_0 is Some ==> r->Ok_0->0.wf(),
    {
        if class >= self.method_area.classes.len() {
            return Err(VmError::ClassNotFound);
        }
        let name = initializer();
        let descriptor = void_descriptor();
        let found = match &self.method_area.classes[class] {
            Klass::Instance(k) => {
                if k.initialized {
                    return Ok(None);
                }
                if k.constant_pool.is_none() {
                    return Err(VmError::ClassNotFound);
                }
                find_method(&k.parsed_class.methods, &name, &descriptor)
            },
            Klass::Array(_) => {
                return Err(VmError::ClassNotFound);
            },
        };
        let frame = match found {
            Some(m) => match Frame::for_method(&self.method_area, class, m) {
                Ok(f) => Some(f),
                Err(e) => {
                    return Err(e);
                },
            },
            None => None,
        };
        let ghost area = self.method_area;
        match &mut self.method_area.classes[class] {
            Klass::Instance(k) => {
                k.initialized = true;
            },
            Klass::Array(_) => {},
        }
        proof {
            let record = self.method_area.classes@[class as int];
            assert(self.method_area.classes@ =~= area.classes@.update(class as int, record));
            lemma_update_keeps_wf(area, class as int, record);
        }
        Ok(frame)
    }

    /// Sees to it that the class named `name` is loaded, linked and
    /// initialized, each once. Loading goes one class at a time, since the
    /// host brings the bytes; a class that is loaded is linked, after its
    /// superclasses, and initialized in one call.
    ///
    /// Where the class is initialized, the call changes nothing: so a call
    /// that follows one that returned `Ready` or `Run` changes nothing.
    pub fn ensure_class(&mut self, name: &str) -> (r: Result<Ensured, VmError>)
        requires
            old(self).wf(),
        ensures
            final(self).wf(),
            ensure_class_post(*old(self), *final(self), name@, r),
            r is Ok && r->Ok_0 is Run ==> r->Ok_0->Run_0.wf(),
    {
        let found = self.method_area.find(name);
        match found {
            Some(i) => {
                if self.method_area.classes[i].is_initialized() {
                    return Ok(Ensured::Ready);
                }
            },
            None => {},
        }
        if self.loading.len() > 0 {
            return match self.advance_loading() {
                Ok(Loading::Missing(wanted)) => Ok(Ensured::Load(wanted)),
                Ok(_) => Ok(Ensured::Again),
                Err(e) => Err(e),
            };
        }
        let i = match found {
            Some(i) => i,
            None => {
                return Ok(Ensured::Load(name.to_owned()));
            },
        };
        let linked = match &self.method_area.classes[i] {
            Klass::Instance(k) => k.constant_pool.is_some(),
            Klass::Array(_) => true,
        };
        if !linked {
            match self.link_class(i) {
                Ok(()) => {},
                Err(e) => {
                    proof {
                        lemma_unlinked_chain(old(self).method_area.classes@, i as int);
                        assert(linked_then_initialized(*old(self), *self, *self, i as int, Err(e)));
                    }
                    return Err(e);
                },
            }
        }
        let ghost middle = *self;
        let r = match self.init_class(i) {
            Ok(Some(frame)) => Ok(Ensured::Run(frame)),
            Ok(None) => Ok(Ensured::Ready),
            Err(e) => Err(e),
        };
        proof {
            if !linked {
                lemma_unlinked_chain(old(self).method_area.classes@, i as int);
                assert(linked_then_initialized(*old(self), middle, *self, i as int, r));
            }
        }
        r
    }
}

} // verus!
