//! The method area: the registry of loaded classes, with their field
//! layouts, their static storage and their place in the class hierarchy.

use vstd::prelude::*;
use vstd::string::*;

use crate::descriptor::{
    copy_field_type, lemma_same_text, same_descriptor, same_type, type_with_text, FieldType,
    MethodDescriptor, MethodDescriptorView,
};
use crate::deserialize::views;
use crate::error::VmError;
use crate::heap::zeroed;
use crate::parse::{
    memo_ok, parse_or_get_constant, spec_resolve, Class, Constant, ConstantView, Field, Method,
};

verus! {

/// One field in a layout: the class that declares it, its name, its type
/// and the number of cells it takes.
#[derive(Debug)]
pub struct KlassField {
    pub class_name: String,
    pub field_name: String,
    pub field_type: FieldType,
    pub field_width: usize,
}

/// A copy of a layout entry.
pub fn copy_klass_field(f: &KlassField) -> (r: KlassField)
    ensures
        r == *f,
{
    KlassField {
        class_name: f.class_name.clone(),
        field_name: f.field_name.clone(),
        field_type: copy_field_type(&f.field_type),
        field_width: f.field_width,
    }
}

/// The record of a loaded class.
///
/// A record is made when the class is loaded. Linking gives it a resolved
/// constant pool, a mirror object and zeroed static storage; initialization
/// sets `initialized`, before the class initializer runs.
#[derive(Debug)]
pub struct InstanceKlass {
    pub name: String,
    pub parsed_class: Class,
    /// Where the record of the superclass stands in the method area.
    pub super_index: Option<usize>,
    /// Where the records of the interfaces stand in the method area.
    pub interface_indices: Vec<usize>,
    pub constant_pool: Option<Vec<Constant>>,
    pub static_field_values: Vec<u32>,
    pub fields: Vec<KlassField>,
    pub static_fields: Vec<KlassField>,
    pub java_clone: Option<u32>,
    pub initialized: bool,
}

/// The record of an array class: its descriptor, which starts with `[`, and
/// its mirror object.
#[derive(Debug)]
pub struct ArrayKlass {
    pub name: String,
    pub java_clone: Option<u32>,
}

/// A record of the method area.
#[derive(Debug)]
pub enum Klass {
    Instance(InstanceKlass),
    Array(ArrayKlass),
}

/// The registry of loaded classes. A class is found by its name; its
/// position never changes, since no record is ever removed.
#[derive(Debug)]
pub struct MethodArea {
    pub classes: Vec<Klass>,
}

/// The number of cells that a layout takes: the sum of its widths.
pub open spec fn total_width(layout: Seq<KlassField>) -> nat
    decreases layout.len(),
{
    if layout.len() == 0 {
        0
    } else {
        total_width(layout.drop_last()) + layout.last().field_width as nat
    }
}

/// The layout entries of the fields of a class that are static
/// (`statics`), or of those that are not, in declaration order.
pub open spec fn layout_of(class_name: String, fields: Seq<Field>, statics: bool) -> Seq<KlassField>
    decreases fields.len(),
{
    if fields.len() == 0 {
        Seq::empty()
    } else {
        let before = layout_of(class_name, fields.drop_last(), statics);
        let field = fields.last();
        if field.access.is_static == statics {
            before.push(
                KlassField {
                    class_name,
                    field_name: field.name,
                    field_type: field.descriptor.field_type,
                    field_width: field.descriptor.field_type.spec_width() as usize,
                },
            )
        } else {
            before
        }
    }
}

/// The offset of the first field named `name` in a layout: the sum of the
/// widths before it. `None` where no field has that name.
pub open spec fn offset_in(layout: Seq<KlassField>, name: Seq<char>) -> Option<nat>
    decreases layout.len(),
{
    if layout.len() == 0 {
        None
    } else {
        match offset_in(layout.drop_last(), name) {
            Some(offset) => Some(offset),
            None => if layout.last().field_name@ == name {
                Some(total_width(layout.drop_last()))
            } else {
                None
            },
        }
    }
}

/// Every entry of a layout has the width of its type, and its type is
/// well-formed.
pub open spec fn layout_wf(layout: Seq<KlassField>) -> bool {
    forall|i: int|
        0 <= i < layout.len() ==> (#[trigger] layout[i]).field_width == layout[i].field_type.spec_width()
            && layout[i].field_type.wf()
}

/// The position of the record named `name`; `None` where there is none.
pub open spec fn index_of(classes: Seq<Klass>, name: Seq<char>) -> Option<int>
    decreases classes.len(),
{
    if classes.len() == 0 {
        None
    } else {
        match index_of(classes.drop_last(), name) {
            Some(i) => Some(i),
            None => if classes.last().spec_name() == name {
                Some(classes.len() - 1)
            } else {
                None
            },
        }
    }
}

/// The name of the field that a resolved field reference names; `None` for
/// a constant of another kind.
pub open spec fn field_name_of(c: ConstantView) -> Option<Seq<char>> {
    match c {
        ConstantView::FieldRef(_, member) => match *member {
            ConstantView::NameAndType(name, _) => Some(name),
            _ => None,
        },
        _ => None,
    }
}

/// The class and the name that a resolved field reference names.
fn names_of_field(c: &Constant) -> (r: Option<(&String, &String)>)
    ensures
        match (field_name_of(c@), r) {
            (Some(name), Some((_, found))) => found@ == name,
            (None, None) => true,
            _ => false,
        },
{
    reveal_with_fuel(Constant::content, 2);
    match c {
        Constant::FieldRef(info, member) => match &**member {
            Constant::NameAndType(name, _) => Some((&info.name, name)),
            _ => None,
        },
        _ => None,
    }
}

impl InstanceKlass {
    /// The offset of the static field that a resolved field reference
    /// names, as `static_field_offset_with_strings` finds it. Fails with
    /// `Resolution` where the constant is no field reference.
    pub fn static_field_offset(&self, field_ref_constant: &Constant) -> (r: Result<usize, VmError>)
        requires
            self.wf(),
        ensures
            match field_name_of(field_ref_constant@) {
                None => r == Err::<usize, VmError>(VmError::Resolution),
                Some(name) => match offset_in(self.static_fields@, name) {
                    Some(offset) => r == Ok::<usize, VmError>(offset as usize) && offset
                        < total_width(self.static_fields@),
                    None => r == Err::<usize, VmError>(VmError::NoSuchField),
                },
            },
    {
        match names_of_field(field_ref_constant) {
            Some((class, name)) => self.static_field_offset_with_strings(class, name),
            None => Err(VmError::Resolution),
        }
    }

    /// The offset of the instance field that a resolved field reference
    /// names, as `field_offset_with_strings` finds it. Fails with
    /// `Resolution` where the constant is no field reference.
    pub fn field_offset(&self, field_ref_constant: &Constant) -> (r: Result<usize, VmError>)
        requires
            self.wf(),
        ensures
            match field_name_of(field_ref_constant@) {
                None => r == Err::<usize, VmError>(VmError::Resolution),
                Some(name) => match offset_in(self.fields@, name) {
                    Some(offset) => r == Ok::<usize, VmError>(offset as usize) && offset
                        < total_width(self.fields@),
                    None => r == Err::<usize, VmError>(VmError::NoSuchField),
                },
            },
    {
        match names_of_field(field_ref_constant) {
            Some((class, name)) => self.field_offset_with_strings(class, name),
            None => Err(VmError::Resolution),
        }
    }

    /// Whether the class has been linked.
    pub open spec fn spec_is_linked(&self) -> bool {
        self.constant_pool is Some
    }

    /// What holds of every record, whatever its state.
    pub open spec fn wf(&self) -> bool {
        &&& self.parsed_class.wf()
        &&& layout_wf(self.fields@)
        &&& layout_wf(self.static_fields@)
        &&& total_width(self.fields@) <= usize::MAX
        &&& total_width(self.static_fields@) <= usize::MAX
        &&& self.initialized ==> self.constant_pool is Some
        &&& self.constant_pool is Some ==> {
            &&& memo_ok(self.constant_pool->0@, views(self.parsed_class.raw_pool@))
            &&& self.static_field_values@.len() == total_width(self.static_fields@)
            &&& self.java_clone is Some
        }
    }

    /// Whether the class has been linked.
    pub fn is_linked(&self) -> (r: bool)
        ensures
            r == self.spec_is_linked(),
    {
        self.constant_pool.is_some()
    }

    /// The offset of the static field named `searched_field_name` in the
    /// static storage of the class.
    ///
    /// The first field of that name is taken; the declaring class is not
    /// looked at. Fails with `NoSuchField`, and only then, where the layout
    /// has no field of that name.
    pub fn static_field_offset_with_strings(
        &self,
        searched_class_name: &String,
        searched_field_name: &String,
    ) -> (r: Result<usize, VmError>)
        requires
            self.wf(),
        ensures
            match offset_in(self.static_fields@, searched_field_name@) {
                Some(offset) => r == Ok::<usize, VmError>(offset as usize) && offset
                    < total_width(self.static_fields@),
                None => r == Err::<usize, VmError>(VmError::NoSuchField),
            },
    {
        find_offset(&self.static_fields, searched_field_name)
    }

    /// The offset of the instance field named `searched_field_name` in an
    /// object of the class.
    ///
    /// The first field of that name in the layout is taken, inherited
    /// fields first; the declaring class is not looked at. Fails with
    /// `NoSuchField`, and only then, where the layout has no field of that
    /// name.
    pub fn field_offset_with_strings(
        &self,
        searched_class_name: &String,
        searched_field_name: &String,
    ) -> (r: Result<usize, VmError>)
        requires
            self.wf(),
        ensures
            match offset_in(self.fields@, searched_field_name@) {
                Some(offset) => r == Ok::<usize, VmError>(offset as usize) && offset < total_width(
                    self.fields@,
                ),
                None => r == Err::<usize, VmError>(VmError::NoSuchField),
            },
    {
        find_offset(&self.fields, searched_field_name)
    }
}

/// The width of a prefix of a layout is at most that of the layout.
pub proof fn lemma_total_width_prefix(layout: Seq<KlassField>, n: int)
    requires
        0 <= n <= layout.len(),
    ensures
        total_width(layout.subrange(0, n)) <= total_width(layout),
    decreases layout.len() - n,
{
    if n == layout.len() {
        assert(layout.subrange(0, n) =~= layout);
    } else {
        lemma_total_width_prefix(layout, n + 1);
        assert(layout.subrange(0, n + 1).drop_last() =~= layout.subrange(0, n));
    }
}

/// A field that is found lies within the layout, if no field has width 0.
pub proof fn lemma_offset_in_bound(layout: Seq<KlassField>, name: Seq<char>)
    requires
        layout_wf(layout),
    ensures
        match offset_in(layout, name) {
            Some(offset) => offset < total_width(layout),
            None => true,
        },
    decreases layout.len(),
{
    if layout.len() > 0 {
        lemma_offset_in_bound(layout.drop_last(), name);
        assert(layout.last().field_width >= 1);
    }
}

/// Walks a layout for the first field named `name`.
fn find_offset(layout: &Vec<KlassField>, name: &String) -> (r: Result<usize, VmError>)
    requires
        layout_wf(layout@),
        total_width(layout@) <= usize::MAX,
    ensures
        match offset_in(layout@, name@) {
            Some(offset) => r == Ok::<usize, VmError>(offset as usize) && offset < total_width(
                layout@,
            ),
            None => r == Err::<usize, VmError>(VmError::NoSuchField),
        },
{
    let mut offset: usize = 0;
    let mut i: usize = 0;
    proof {
        lemma_offset_in_bound(layout@, name@);
    }
    while i < layout.len()
        invariant
            i <= layout.len(),
            layout_wf(layout@),
            total_width(layout@) <= usize::MAX,
            offset == total_width(layout@.subrange(0, i as int)),
            offset_in(layout@.subrange(0, i as int), name@) is None,
            match offset_in(layout@, name@) {
                Some(o) => o < total_width(layout@),
                None => true,
            },
        decreases layout.len() - i,
    {
        proof {
            assert(layout@.subrange(0, i + 1).drop_last() =~= layout@.subrange(0, i as int));
            lemma_total_width_prefix(layout@, i + 1);
            lemma_offset_in_prefix(layout@, name@, i + 1);
        }
        if layout[i].field_name == *name {
            return Ok(offset);
        }
        offset = offset + layout[i].field_width;
        i = i + 1;
    }
    assert(layout@.subrange(0, i as int) =~= layout@);
    Err(VmError::NoSuchField)
}

/// A field found in a prefix of a layout is the field found in the layout.
pub proof fn lemma_offset_in_prefix(layout: Seq<KlassField>, name: Seq<char>, n: int)
    requires
        0 <= n <= layout.len(),
    ensures
        offset_in(layout.subrange(0, n), name) is Some ==> offset_in(layout, name) == offset_in(
            layout.subrange(0, n),
            name,
        ),
    decreases layout.len() - n,
{
    if n == layout.len() {
        assert(layout.subrange(0, n) =~= layout);
    } else {
        lemma_offset_in_prefix(layout, name, n + 1);
        assert(layout.subrange(0, n + 1).drop_last() =~= layout.subrange(0, n));
    }
}

impl Klass {
    /// The name under which the record is found.
    pub open spec fn spec_name(&self) -> Seq<char> {
        match *self {
            Klass::Instance(k) => k.name@,
            Klass::Array(k) => k.name@,
        }
    }

    /// Whether the class is initialized; an array class always is.
    pub open spec fn spec_is_initialized(&self) -> bool {
        match *self {
            Klass::Instance(k) => k.initialized,
            Klass::Array(_) => true,
        }
    }

    /// The record of a class is well-formed; that of an array class always
    /// is.
    pub open spec fn wf(&self) -> bool {
        match *self {
            Klass::Instance(k) => k.wf(),
            Klass::Array(_) => true,
        }
    }

    /// Whether the class is initialized; an array class always is.
    pub fn is_initialized(&self) -> (r: bool)
        ensures
            r == self.spec_is_initialized(),
    {
        match self {
            Klass::Instance(k) => k.initialized,
            Klass::Array(_) => true,
        }
    }

    /// The name under which the record is found.
    pub fn get_name(&self) -> (r: &str)
        ensures
            r@ == self.spec_name(),
    {
        match self {
            Klass::Instance(k) => k.name.as_str(),
            Klass::Array(k) => k.name.as_str(),
        }
    }

    /// The mirror object of the class, once it has one.
    pub fn get_java_clone(&self) -> (r: Option<u32>)
        ensures
            r == match *self {
                Klass::Instance(k) => k.java_clone,
                Klass::Array(k) => k.java_clone,
            },
    {
        match self {
            Klass::Instance(k) => k.java_clone,
            Klass::Array(k) => k.java_clone,
        }
    }

    /// The record, where it is that of a class and not of an array class.
    pub fn as_instance_klass(&self) -> (r: Option<&InstanceKlass>)
        ensures
            match *self {
                Klass::Instance(k) => r == Some(&k),
                Klass::Array(_) => r is None,
            },
    {
        match self {
            Klass::Instance(k) => Some(k),
            Klass::Array(_) => None,
        }
    }
}

/// Whether `short` is the beginning of `long`.
pub open spec fn is_prefix(short: Seq<KlassField>, long: Seq<KlassField>) -> bool {
    short.len() <= long.len() && long.subrange(0, short.len() as int) == short
}

/// What ties the record at position `i` to the records of its superclass
/// and of its interfaces: they stand before it, they are classes and not
/// arrays, they bear the names that the class file gives, and the
/// instance-field layout of the class begins with that of its superclass.
pub open spec fn hierarchy_ok(classes: Seq<Klass>, i: int) -> bool {
    match classes[i] {
        Klass::Array(_) => true,
        Klass::Instance(k) => {
            &&& match k.super_index {
                Some(j) => {
                    &&& j < i
                    &&& classes[j as int] is Instance
                    &&& k.parsed_class.super_class is Some
                    &&& k.parsed_class.super_class->0@ == classes[j as int].spec_name()
                    &&& is_prefix(classes[j as int]->Instance_0.fields@, k.fields@)
                },
                None => k.parsed_class.super_class is None,
            }
            &&& k.interface_indices@.len() == k.parsed_class.interfaces@.len()
            &&& forall|t: int|
                0 <= t < k.interface_indices@.len() ==> {
                    &&& (#[trigger] k.interface_indices@[t]) < i
                    &&& classes[k.interface_indices@[t] as int] is Instance
                    &&& classes[k.interface_indices@[t] as int].spec_name()
                        == k.parsed_class.interfaces@[t]@
                }
        },
    }
}

/// What `index_of` finds bears the name, and where it finds nothing no
/// record bears it.
pub proof fn lemma_index_of(classes: Seq<Klass>, name: Seq<char>)
    ensures
        match index_of(classes, name) {
            Some(i) => 0 <= i < classes.len() && classes[i].spec_name() == name,
            None => forall|i: int| 0 <= i < classes.len() ==> (#[trigger] classes[i]).spec_name() != name,
        },
    decreases classes.len(),
{
    if classes.len() > 0 {
        lemma_index_of(classes.drop_last(), name);
        match index_of(classes.drop_last(), name) {
            Some(i) => {},
            None => {
                assert forall|i: int| 0 <= i < classes.len() - 1 implies (#[trigger] classes[i]).spec_name()
                    != name by {
                    assert(classes.drop_last()[i] == classes[i]);
                }
            },
        }
    }
}

/// A record that is added changes nothing for the names that were found
/// before.
pub proof fn lemma_index_of_push(classes: Seq<Klass>, added: Klass, name: Seq<char>)
    ensures
        index_of(classes, name) is Some ==> index_of(classes.push(added), name) == index_of(
            classes,
            name,
        ),
        index_of(classes, name) is None ==> index_of(classes.push(added), name) == if added.spec_name()
            == name {
            Some(classes.len() as int)
        } else {
            None
        },
{
    assert(classes.push(added).drop_last() =~= classes);
}

impl MethodArea {
    /// Every record is well-formed, no two records share a name, and every
    /// class stands after its superclass and its interfaces.
    pub open spec fn wf(&self) -> bool {
        &&& forall|i: int| 0 <= i < self.classes@.len() ==> (#[trigger] self.classes@[i]).wf()
        &&& forall|a: int, b: int|
            0 <= a < b < self.classes@.len() ==> (#[trigger] self.classes@[a]).spec_name() != (
            #[trigger] self.classes@[b]).spec_name()
        &&& forall|i: int| 0 <= i < self.classes@.len() ==> #[trigger] hierarchy_ok(self.classes@, i)
    }

    /// Whether a class of that name is loaded and initialized.
    pub open spec fn is_initialized(&self, name: Seq<char>) -> bool {
        match index_of(self.classes@, name) {
            Some(i) => self.classes@[i].spec_is_initialized(),
            None => false,
        }
    }

    /// A method area without classes.
    pub fn new() -> (r: MethodArea)
        ensures
            r.wf(),
            r.classes@.len() == 0,
    {
        MethodArea { classes: Vec::new() }
    }

    /// The position of the record named `name`.
    pub fn find(&self, name: &str) -> (r: Option<usize>)
        ensures
            r is Some <==> index_of(self.classes@, name@) is Some,
            r is Some ==> index_of(self.classes@, name@) == Some(r->0 as int) && r->0
                < self.classes@.len(),
    {
        let wanted = name.to_owned();
        let mut i: usize = 0;
        while i < self.classes.len()
            invariant
                i <= self.classes.len(),
                wanted@ == name@,
                index_of(self.classes@.subrange(0, i as int), name@) is None,
            decreases self.classes.len() - i,
        {
            proof {
                assert(self.classes@.subrange(0, i + 1).drop_last() =~= self.classes@.subrange(
                    0,
                    i as int,
                ));
                lemma_index_of_prefix(self.classes@, name@, i + 1);
            }
            let found = match &self.classes[i] {
                Klass::Instance(k) => k.name == wanted,
                Klass::Array(k) => k.name == wanted,
            };
            if found {
                return Some(i);
            }
            i = i + 1;
        }
        assert(self.classes@.subrange(0, i as int) =~= self.classes@);
        None
    }
}

/// A record found among the first `n` is the record found among all.
pub proof fn lemma_index_of_prefix(classes: Seq<Klass>, name: Seq<char>, n: int)
    requires
        0 <= n <= classes.len(),
    ensures
        index_of(classes.subrange(0, n), name) is Some ==> index_of(classes, name) == index_of(
            classes.subrange(0, n),
            name,
        ),
    decreases classes.len() - n,
{
    if n == classes.len() {
        assert(classes.subrange(0, n) =~= classes);
    } else {
        lemma_index_of_prefix(classes, name, n + 1);
        assert(classes.subrange(0, n + 1).drop_last() =~= classes.subrange(0, n));
    }
}

/// The width of two layouts, one after the other, is the sum of their
/// widths.
pub proof fn lemma_total_width_concat(a: Seq<KlassField>, b: Seq<KlassField>)
    ensures
        total_width(a + b) == total_width(a) + total_width(b),
    decreases b.len(),
{
    if b.len() == 0 {
        assert(a + b =~= a);
    } else {
        lemma_total_width_concat(a, b.drop_last());
        assert((a + b).drop_last() =~= a + b.drop_last());
    }
}

/// The position of the record named `name`, where it is the record of a
/// class and not of an array.
pub open spec fn instance_index(classes: Seq<Klass>, name: Seq<char>) -> Option<int> {
    match index_of(classes, name) {
        Some(i) => if classes[i] is Instance {
            Some(i)
        } else {
            None
        },
        None => None,
    }
}

/// The instance-field layout that a class inherits: that of its
/// superclass, or nothing where it has none.
pub open spec fn inherited_layout(classes: Seq<Klass>, class: Class) -> Seq<KlassField> {
    match class.super_class {
        Some(info) => match instance_index(classes, info@) {
            Some(j) => classes[j]->Instance_0.fields@,
            None => Seq::empty(),
        },
        None => Seq::empty(),
    }
}

/// Why a class cannot be added, if it cannot: a record of that name is
/// there already (`Unexpected`), its superclass or one of its interfaces is
/// not loaded as a class (`ClassNotFound`), or a layout would be wider than
/// the machine can count (`OutOfMemory`).
pub open spec fn add_class_failure(classes: Seq<Klass>, class_name: String, class: Class) -> Option<
    VmError,
> {
    if index_of(classes, class_name@) is Some {
        Some(VmError::Unexpected)
    } else if class.super_class is Some && instance_index(classes, class.super_class->0@) is None {
        Some(VmError::ClassNotFound)
    } else if exists|t: int|
        0 <= t < class.interfaces@.len() && instance_index(classes, #[trigger] class.interfaces@[t]@)
            is None {
        Some(VmError::ClassNotFound)
    } else if total_width(inherited_layout(classes, class)) + total_width(
        layout_of(class_name, class.fields@, false),
    ) > usize::MAX || total_width(layout_of(class_name, class.fields@, true)) > usize::MAX {
        Some(VmError::OutOfMemory)
    } else {
        None
    }
}

/// The record that adding a class makes: loaded, not linked, with both
/// layouts computed. The instance-field layout is that of the superclass,
/// as it stands, followed by the fields of the class that are not static,
/// in declaration order; the static-field layout is its static fields.
pub open spec fn is_new_record(
    classes: Seq<Klass>,
    class_name: String,
    class: Class,
    record: Klass,
) -> bool {
    &&& record is Instance
    &&& record->Instance_0.name == class_name
    &&& record->Instance_0.parsed_class == class
    &&& record->Instance_0.super_index == match class.super_class {
        Some(info) => Some(instance_index(classes, info@)->0 as usize),
        None => None,
    }
    &&& record->Instance_0.interface_indices@.len() == class.interfaces@.len()
    &&& forall|t: int|
        0 <= t < class.interfaces@.len() ==> Some(
            (#[trigger] record->Instance_0.interface_indices@[t]) as int,
        ) == instance_index(classes, class.interfaces@[t]@)
    &&& record->Instance_0.fields@ == inherited_layout(classes, class) + layout_of(
        class_name,
        class.fields@,
        false,
    )
    &&& record->Instance_0.static_fields@ == layout_of(class_name, class.fields@, true)
    &&& record->Instance_0.constant_pool is None
    &&& record->Instance_0.static_field_values@.len() == 0
    &&& record->Instance_0.java_clone is None
    &&& !record->Instance_0.initialized
}

impl MethodArea {
    /// Adds a parsed class to the registry, in state Loaded, after
    /// computing its two field layouts.
    #[verifier::loop_isolation(false)]
    pub fn add_class(&mut self, class_name: String, class: Class) -> (r: Result<(), VmError>)
        requires
            old(self).wf(),
            class.wf(),
        ensures
            final(self).wf(),
            match add_class_failure(old(self).classes@, class_name, class) {
                Some(e) => r == Err::<(), VmError>(e) && final(self).classes@ == old(self).classes@,
                None => {
                    &&& r is Ok
                    &&& final(self).classes@.len() == old(self).classes@.len() + 1
                    &&& final(self).classes@.drop_last() == old(self).classes@
                    &&& is_new_record(
                        old(self).classes@,
                        class_name,
                        class,
                        final(self).classes@.last(),
                    )
                },
            },
    {
        let ghost classes = self.classes@;
        proof {
            lemma_index_of(classes, class_name@);
        }
        if self.find(class_name.as_str()).is_some() {
            return Err(VmError::Unexpected);
        }
        let mut fields: Vec<KlassField> = Vec::new();
        let mut super_index: Option<usize> = None;
        let mut instance_cells: u128 = 0;
        match &class.super_class {
            Some(info) => {
                proof {
                    lemma_index_of(classes, info@);
                }
                let j = match self.find(info.name.as_str()) {
                    Some(j) => j,
                    None => { return Err(VmError::ClassNotFound); },
                };

                match &self.classes[j] {
                    Klass::Instance(parent) => {
                        let mut n: usize = 0;
                        while n < parent.fields.len()
                            invariant
                                n <= parent.fields.len(),
                                fields@ == parent.fields@.subrange(0, n as int),
                            decreases parent.fields.len() - n,
                        {
                            fields.push(copy_klass_field(&parent.fields[n]));
                            n = n + 1;
                            assert(fields@ =~= parent.fields@.subrange(0, n as int));
                        }
                        assert(fields@ =~= parent.fields@);
                        super_index = Some(j);
                        assert(total_width(parent.fields@) <= usize::MAX);
                    },
                    Klass::Array(_) => {
                        return Err(VmError::ClassNotFound);
                    },
                }
            },
            None => {},
        }
        let ghost inherited = fields@;
        assert(inherited == inherited_layout(classes, class));
        let mut interface_indices: Vec<usize> = Vec::new();
        let mut t: usize = 0;
        while t < class.interfaces.len()
            invariant
                t <= class.interfaces.len(),
                classes == self.classes@,
                interface_indices@.len() == t,
                forall|u: int|
                    0 <= u < t ==> Some((#[trigger] interface_indices@[u]) as int) == instance_index(
                        classes,
                        class.interfaces@[u]@,
                    ),
            decreases class.interfaces.len() - t,
        {
            let found = match self.find(class.interfaces[t].name.as_str()) {
                Some(j) => match &self.classes[j] {
                    Klass::Instance(_) => Some(j),
                    Klass::Array(_) => None,
                },
                None => None,
            };
            match found {
                Some(j) => {
                    interface_indices.push(j);
                },
                None => {
                    assert(instance_index(classes, class.interfaces@[t as int]@) is None);
                    return Err(VmError::ClassNotFound);
                },
            }
            t = t + 1;
        }
        assert forall|u: int| 0 <= u < class.interfaces@.len() implies instance_index(
            classes,
            #[trigger] class.interfaces@[u]@,
        ) is Some by {
            assert(Some(interface_indices@[u] as int) == instance_index(
                classes,
                class.interfaces@[u]@,
            ));
        }
        let mut static_fields: Vec<KlassField> = Vec::new();
        let mut f: usize = 0;
        while f < class.fields.len()
            invariant
                f <= class.fields.len(),
                class.wf(),
                fields@ == inherited + layout_of(
                    class_name,
                    class.fields@.subrange(0, f as int),
                    false,
                ),
                static_fields@ == layout_of(class_name, class.fields@.subrange(0, f as int), true),
            decreases class.fields.len() - f,
        {
            let field = &class.fields[f];
            let entry = KlassField {
                class_name: class_name.clone(),
                field_name: field.name.clone(),
                field_type: copy_field_type(&field.descriptor.field_type),
                field_width: field.descriptor.field_type.width(),
            };
            proof {
                assert(class.fields@.subrange(0, f + 1).drop_last() =~= class.fields@.subrange(
                    0,
                    f as int,
                ));
                assert(class.fields@.subrange(0, f + 1).last() == class.fields@[f as int]);
            }
            if field.access.is_static {
                static_fields.push(entry);
            } else {
                let ghost before = layout_of(class_name, class.fields@.subrange(0, f as int), false);
                fields.push(entry);
                assert(fields@ =~= inherited + before.push(entry));
            }
            f = f + 1;
        }
        assert(class.fields@.subrange(0, f as int) =~= class.fields@);
        let ghost own = layout_of(class_name, class.fields@, false);
        let ghost own_static = layout_of(class_name, class.fields@, true);
        let instance_width = match measure_layout(&fields) {
            Some(w) => w,
            None => {
                proof {
                    lemma_total_width_concat(inherited, own);
                }
                return Err(VmError::OutOfMemory);
            },
        };
        let static_width = match measure_layout(&static_fields) {
            Some(w) => w,
            None => {
                proof {
                    lemma_total_width_concat(inherited, own);
                }
                return Err(VmError::OutOfMemory);
            },
        };
        proof {
            lemma_total_width_concat(inherited, own);
            lemma_layout_of_wf(class_name, class.fields@, false);
            lemma_layout_of_wf(class_name, class.fields@, true);
            assert(layout_wf(fields@)) by {
                assert forall|i: int| 0 <= i < fields@.len() implies (#[trigger] fields@[i]).field_width
                    == fields@[i].field_type.spec_width() && fields@[i].field_type.wf() by {
                    if i < inherited.len() {
                        assert(fields@[i] == inherited[i]);
                        match class.super_class {
                            Some(info) => {
                                let j = instance_index(classes, info@)->0;
                                assert(classes[j].wf());
                            },
                            None => {},
                        }
                    } else {
                        assert(fields@[i] == own[i - inherited.len()]);
                    }
                }
            }
        }
        let record = InstanceKlass {
            name: class_name,
            parsed_class: class,
            super_index,
            interface_indices,
            constant_pool: None,
            static_field_values: Vec::new(),
            fields,
            static_fields,
            java_clone: None,
            initialized: false,
        };
        assert(record.wf());
        self.classes.push(Klass::Instance(record));
        proof {
            let after = self.classes@;
            assert(after.drop_last() =~= classes);
            assert forall|x: int| 0 <= x < classes.len() implies after[x] == classes[x] by {
                assert(after.drop_last()[x] == after[x]);
            }
            assert forall|i: int| 0 <= i < after.len() implies #[trigger] hierarchy_ok(after, i) by {
                if i < classes.len() {
                    assert(hierarchy_ok(classes, i));
                } else {
                    assert(after[i] == Klass::Instance(record));
                    match record.parsed_class.super_class {
                        Some(info) => {
                            lemma_index_of(classes, info@);
                            assert(record.fields@.subrange(0, inherited.len() as int) =~= inherited);
                        },
                        None => {},
                    }
                    assert forall|t: int| 0 <= t < record.interface_indices@.len() implies {
                        &&& (#[trigger] record.interface_indices@[t]) < i
                        &&& after[record.interface_indices@[t] as int] is Instance
                        &&& after[record.interface_indices@[t] as int].spec_name()
                            == record.parsed_class.interfaces@[t]@
                    } by {
                        lemma_index_of(classes, record.parsed_class.interfaces@[t]@);
                    }
                }
            }
        }
        Ok(())
    }
}

/// The entries of a computed layout have the widths of their types.
pub proof fn lemma_layout_of_wf(class_name: String, fields: Seq<Field>, statics: bool)
    requires
        forall|i: int| 0 <= i < fields.len() ==> (#[trigger] fields[i]).descriptor.field_type.wf(),
    ensures
        layout_wf(layout_of(class_name, fields, statics)),
    decreases fields.len(),
{
    if fields.len() > 0 {
        assert forall|i: int| 0 <= i < fields.drop_last().len() implies (
        #[trigger] fields.drop_last()[i]).descriptor.field_type.wf() by {
            assert(fields.drop_last()[i] == fields[i]);
        }
        lemma_layout_of_wf(class_name, fields.drop_last(), statics);
    }
}

/// The number of cells of a layout, if the machine can count them.
pub fn measure_layout(layout: &Vec<KlassField>) -> (r: Option<usize>)
    ensures
        r == if total_width(layout@) <= usize::MAX {
            Some(total_width(layout@) as usize)
        } else {
            None
        },
{
    let mut total: usize = 0;
    let mut i: usize = 0;
    while i < layout.len()
        invariant
            i <= layout.len(),
            total == total_width(layout@.subrange(0, i as int)),
        decreases layout.len() - i,
    {
        proof {
            assert(layout@.subrange(0, i + 1).drop_last() =~= layout@.subrange(0, i as int));
            lemma_total_width_prefix(layout@, i + 1);
        }
        total = match total.checked_add(layout[i].field_width) {
            Some(sum) => sum,
            None => { return None; },
        };
        i = i + 1;
    }
    assert(layout@.subrange(0, i as int) =~= layout@);
    Some(total)
}

/// Whether the class at position `i` is the class or interface named
/// `target`, or has it among the superclasses and interfaces of itself and
/// of its ancestors.
pub open spec fn inherits(classes: Seq<Klass>, i: int, target: Seq<char>) -> bool
    decreases i,
{
    if 0 <= i < classes.len() {
        match classes[i] {
            Klass::Array(_) => false,
            Klass::Instance(k) => {
                ||| k.name@ == target
                ||| match k.super_index {
                    Some(j) => j < i && inherits(classes, j as int, target),
                    None => false,
                }
                ||| exists|t: int|
                    0 <= t < k.interface_indices@.len() && (#[trigger] k.interface_indices@[t]) < i
                        && inherits(classes, k.interface_indices@[t] as int, target)
            },
        }
    } else {
        false
    }
}

/// The name of the class that every class and every array inherits from.
pub open spec fn object_class_name() -> Seq<char> {
    seq!['j', 'a', 'v', 'a', '/', 'l', 'a', 'n', 'g', '/', 'O', 'b', 'j', 'e', 'c', 't']
}

/// Whether a type is a class or an array, and not a primitive.
pub open spec fn is_reference_type(t: FieldType) -> bool {
    t is ClassInstance || t is Array
}

/// Whether a value whose run-time type is `source` may stand where the type
/// `target` is asked for.
///
/// A class may stand for itself, its superclasses and the interfaces of
/// itself and of its ancestors. An array may stand for the class `Object`,
/// and for an array whose element type its own element type may stand for,
/// where both are classes or arrays; an array of a primitive type only for
/// an array of the same type.
pub open spec fn assignable(classes: Seq<Klass>, source: FieldType, target: FieldType) -> bool
    decreases source,
{
    match source {
        FieldType::ClassInstance(name) => match target {
            FieldType::ClassInstance(wanted) => match instance_index(classes, name@) {
                Some(i) => inherits(classes, i, wanted@),
                None => false,
            },
            _ => false,
        },
        FieldType::Array(element) => match target {
            FieldType::ClassInstance(wanted) => wanted@ == object_class_name(),
            FieldType::Array(wanted) => if is_reference_type(*element) && is_reference_type(*wanted) {
                assignable(classes, *element, *wanted)
            } else {
                element.text() == wanted.text()
            },
            _ => false,
        },
        _ => false,
    }
}

/// The position of the first method with that name and descriptor.
pub open spec fn method_index(
    methods: Seq<Method>,
    name: Seq<char>,
    descriptor: MethodDescriptorView,
) -> Option<int>
    decreases methods.len(),
{
    if methods.len() == 0 {
        None
    } else {
        match method_index(methods.drop_last(), name, descriptor) {
            Some(m) => Some(m),
            None => if methods.last().name@ == name && methods.last().descriptor@ == descriptor {
                Some(methods.len() - 1)
            } else {
                None
            },
        }
    }
}

/// Method resolution: the class, the one at position `i` or the nearest of
/// its superclasses, that declares a method with that name and descriptor,
/// and the position of the method in it. `None` where the chain ends
/// without one.
pub open spec fn resolve_method(
    classes: Seq<Klass>,
    i: int,
    name: Seq<char>,
    descriptor: MethodDescriptorView,
) -> Option<(int, int)>
    decreases i,
{
    if 0 <= i < classes.len() {
        match classes[i] {
            Klass::Array(_) => None,
            Klass::Instance(k) => match method_index(k.parsed_class.methods@, name, descriptor) {
                Some(m) => Some((i, m)),
                None => match k.super_index {
                    Some(j) => if j < i {
                        resolve_method(classes, j as int, name, descriptor)
                    } else {
                        None
                    },
                    None => None,
                },
            },
        }
    } else {
        None
    }
}

/// A method found among the first `n` is the method found among all.
pub proof fn lemma_method_index_prefix(
    methods: Seq<Method>,
    name: Seq<char>,
    descriptor: MethodDescriptorView,
    n: int,
)
    requires
        0 <= n <= methods.len(),
    ensures
        method_index(methods.subrange(0, n), name, descriptor) is Some ==> method_index(
            methods,
            name,
            descriptor,
        ) == method_index(methods.subrange(0, n), name, descriptor),
    decreases methods.len() - n,
{
    if n == methods.len() {
        assert(methods.subrange(0, n) =~= methods);
    } else {
        lemma_method_index_prefix(methods, name, descriptor, n + 1);
        assert(methods.subrange(0, n + 1).drop_last() =~= methods.subrange(0, n));
    }
}

/// The position of the first method of a class with that name and
/// descriptor.
pub fn find_method(methods: &Vec<Method>, name: &String, descriptor: &MethodDescriptor) -> (r: Option<
    usize,
>)
    ensures
        r is Some <==> method_index(methods@, name@, descriptor@) is Some,
        r is Some ==> method_index(methods@, name@, descriptor@) == Some(r->0 as int) && r->0
            < methods@.len(),
{
    let mut i: usize = 0;
    while i < methods.len()
        invariant
            i <= methods.len(),
            method_index(methods@.subrange(0, i as int), name@, descriptor@) is None,
        decreases methods.len() - i,
    {
        proof {
            assert(methods@.subrange(0, i + 1).drop_last() =~= methods@.subrange(0, i as int));
            lemma_method_index_prefix(methods@, name@, descriptor@, i + 1);
        }
        if methods[i].name == *name && same_descriptor(&methods[i].descriptor, descriptor) {
            return Some(i);
        }
        i = i + 1;
    }
    assert(methods@.subrange(0, i as int) =~= methods@);
    None
}

impl MethodArea {
    /// Walks the superclass chain from the class at position `start` for a
    /// method with that name and descriptor.
    pub fn lookup_method(&self, start: usize, name: &String, descriptor: &MethodDescriptor) -> (r:
        Option<(usize, usize)>)
        requires
            self.wf(),
        ensures
            match (resolve_method(self.classes@, start as int, name@, descriptor@), r) {
                (Some((c, m)), Some((class, method))) => {
                    &&& c == class && m == method
                    &&& class < self.classes@.len()
                    &&& self.classes@[c] is Instance
                    &&& method < self.classes@[c]->Instance_0.parsed_class.methods@.len()
                },
                (None, None) => true,
                _ => false,
            },
    {
        if start >= self.classes.len() {
            return None;
        }
        let mut current: usize = start;
        loop
            invariant
                self.wf(),
                current < self.classes@.len(),
                resolve_method(self.classes@, start as int, name@, descriptor@) == resolve_method(
                    self.classes@,
                    current as int,
                    name@,
                    descriptor@,
                ),
            decreases current,
        {
            match &self.classes[current] {
                Klass::Array(_) => {
                    return None;
                },
                Klass::Instance(k) => {
                    match find_method(&k.parsed_class.methods, name, descriptor) {
                        Some(m) => {
                            return Some((current, m));
                        },
                        None => {},
                    }
                    assert(hierarchy_ok(self.classes@, current as int));
                    match k.super_index {
                        Some(j) => {
                            current = j;
                        },
                        None => {
                            return None;
                        },
                    }
                },
            }
        }
    }

    /// Whether the class at position `i` is, or inherits from, the class or
    /// interface named `target`.
    pub fn inherits_from(&self, i: usize, target: &String) -> (r: bool)
        requires
            self.wf(),
        ensures
            r == inherits(self.classes@, i as int, target@),
        decreases i,
    {
        if i >= self.classes.len() {
            return false;
        }
        match &self.classes[i] {
            Klass::Array(_) => false,
            Klass::Instance(k) => {
                if k.name == *target {
                    return true;
                }
                assert(hierarchy_ok(self.classes@, i as int));
                match k.super_index {
                    Some(j) => {
                        if self.inherits_from(j, target) {
                            return true;
                        }
                    },
                    None => {},
                }
                let mut t: usize = 0;
                while t < k.interface_indices.len()
                    invariant
                        self.wf(),
                        i < self.classes@.len(),
                        self.classes@[i as int] == Klass::Instance(*k),
                        hierarchy_ok(self.classes@, i as int),
                        t <= k.interface_indices.len(),
                        forall|u: int|
                            0 <= u < t ==> !inherits(
                                self.classes@,
                                (#[trigger] k.interface_indices@[u]) as int,
                                target@,
                            ),
                    decreases k.interface_indices.len() - t,
                {
                    assert(k.interface_indices@[t as int] < i);
                    if self.inherits_from(k.interface_indices[t], target) {
                        return true;
                    }
                    t = t + 1;
                }
                false
            },
        }
    }

    /// Whether a value whose run-time type is `source` may stand where the
    /// type `target` is asked for.
    pub fn is_assignable(&self, source: &FieldType, target: &FieldType) -> (r: bool)
        requires
            self.wf(),
        ensures
            r == assignable(self.classes@, *source, *target),
        decreases *source,
    {
        match source {
            FieldType::ClassInstance(name) => match target {
                FieldType::ClassInstance(wanted) => match self.find(name.as_str()) {
                    Some(i) => match &self.classes[i] {
                        Klass::Instance(_) => self.inherits_from(i, wanted),
                        Klass::Array(_) => false,
                    },
                    None => false,
                },
                _ => false,
            },
            FieldType::Array(element) => match target {
                FieldType::ClassInstance(wanted) => {
                    proof {
                        reveal_strlit("java/lang/Object");
                    }
                    let object = "java/lang/Object".to_owned();
                    assert(object@ =~= object_class_name());
                    *wanted == object
                },
                FieldType::Array(wanted) => {
                    let both = match (&**element, &**wanted) {
                        (FieldType::ClassInstance(_), FieldType::ClassInstance(_)) => true,
                        (FieldType::ClassInstance(_), FieldType::Array(_)) => true,
                        (FieldType::Array(_), FieldType::ClassInstance(_)) => true,
                        (FieldType::Array(_), FieldType::Array(_)) => true,
                        _ => false,
                    };
                    if both {
                        self.is_assignable(&**element, &**wanted)
                    } else {
                        same_type(&**element, &**wanted)
                    }
                },
                _ => false,
            },
            _ => false,
        }
    }
}

/// Whether two records are of the same class with the same place in the
/// hierarchy: they differ at most in what linking, initialization and the
/// running program change.
pub open spec fn same_identity(a: Klass, b: Klass) -> bool {
    match (a, b) {
        (Klass::Instance(x), Klass::Instance(y)) => {
            &&& x.name == y.name
            &&& x.parsed_class == y.parsed_class
            &&& x.super_index == y.super_index
            &&& x.interface_indices == y.interface_indices
            &&& x.fields == y.fields
            &&& x.static_fields == y.static_fields
        },
        (Klass::Array(x), Klass::Array(y)) => x.name == y.name,
        _ => false,
    }
}

/// A record may be replaced by one of the same identity.
pub proof fn lemma_update_keeps_wf(area: MethodArea, i: int, record: Klass)
    requires
        area.wf(),
        0 <= i < area.classes@.len(),
        record.wf(),
        same_identity(area.classes@[i], record),
    ensures
        (MethodArea { classes: area.classes }).wf(),
        forall|j: int|
            0 <= j < area.classes@.len() ==> #[trigger] hierarchy_ok(
                area.classes@.update(i, record),
                j,
            ),
        forall|name: Seq<char>|
            index_of(area.classes@.update(i, record), name) == index_of(area.classes@, name),
{
    let before = area.classes@;
    let after = before.update(i, record);
    assert forall|j: int| 0 <= j < before.len() implies #[trigger] hierarchy_ok(after, j) by {
        assert(hierarchy_ok(before, j));
        match before[j] {
            Klass::Array(_) => {},
            Klass::Instance(k) => {
                assert forall|t: int| 0 <= t < k.interface_indices@.len() implies after[(
                #[trigger] k.interface_indices@[t]) as int].spec_name()
                    == before[k.interface_indices@[t] as int].spec_name() by {}
            },
        }
    }
    assert forall|name: Seq<char>| index_of(after, name) == index_of(before, name) by {
        lemma_index_of_same_names(before, after, name);
    }
}

/// Where two registries bear the same names in the same places, a name is
/// found in the same place in both.
pub proof fn lemma_index_of_same_names(a: Seq<Klass>, b: Seq<Klass>, name: Seq<char>)
    requires
        a.len() == b.len(),
        forall|i: int| 0 <= i < a.len() ==> (#[trigger] a[i]).spec_name() == b[i].spec_name(),
    ensures
        index_of(a, name) == index_of(b, name),
    decreases a.len(),
{
    if a.len() > 0 {
        assert forall|i: int| 0 <= i < a.drop_last().len() implies (#[trigger] a.drop_last()[i]).spec_name()
            == b.drop_last()[i].spec_name() by {
            assert(a.drop_last()[i] == a[i]);
            assert(b.drop_last()[i] == b[i]);
        }
        lemma_index_of_same_names(a.drop_last(), b.drop_last(), name);
    }
}

impl MethodArea {
    /// What the constant with index `index` of the class at position
    /// `class` resolves to; `None` where that is no linked class or the
    /// constant cannot be resolved.
    pub open spec fn spec_constant(&self, class: int, index: int) -> Option<ConstantView> {
        if 0 <= class < self.classes@.len() && self.classes@[class] is Instance
            && self.classes@[class]->Instance_0.constant_pool is Some {
            spec_resolve(views(self.classes@[class]->Instance_0.parsed_class.raw_pool@), index)
        } else {
            None
        }
    }

    /// Whether `other` is this method area but for the constants that the
    /// class at position `class` has resolved.
    pub open spec fn differs_in_pool(&self, other: &MethodArea, class: int) -> bool {
        &&& self.classes@.len() == other.classes@.len()
        &&& forall|j: int|
            0 <= j < self.classes@.len() && j != class ==> (#[trigger] self.classes@[j])
                == other.classes@[j]
        &&& 0 <= class < self.classes@.len() ==> match (self.classes@[class], other.classes@[class]) {
            (Klass::Instance(x), Klass::Instance(y)) => {
                &&& same_identity(self.classes@[class], other.classes@[class])
                &&& x.static_field_values == y.static_field_values
                &&& x.java_clone == y.java_clone
                &&& x.initialized == y.initialized
                &&& (x.constant_pool is Some) == (y.constant_pool is Some)
            },
            _ => self.classes@[class] == other.classes@[class],
        }
    }

    /// Resolves the constant with index `index` through the resolved pool
    /// of the class at position `class`, which remembers it.
    ///
    /// Fails with `Resolution`, and only then, where there is no linked
    /// class at that position or the constant cannot be resolved.
    pub fn resolve(&mut self, class: usize, index: u16) -> (r: Result<Constant, VmError>)
        requires
            old(self).wf(),
        ensures
            final(self).wf(),
            old(self).differs_in_pool(final(self), class as int),
            match old(self).spec_constant(class as int, index as int) {
                Some(c) => r is Ok && r->Ok_0@ == c,
                None => r == Err::<Constant, VmError>(VmError::Resolution),
            },
    {
        if class >= self.classes.len() {
            return Err(VmError::Resolution);
        }
        let ghost before = *self;
        let r = match &mut self.classes[class] {
            Klass::Instance(k) => match &mut k.constant_pool {
                Some(pool) => parse_or_get_constant(pool, &k.parsed_class.raw_pool, index),
                None => Err(VmError::Resolution),
            },
            Klass::Array(_) => Err(VmError::Resolution),
        };
        proof {
            lemma_update_keeps_wf(before, class as int, self.classes@[class as int]);
            assert(self.classes@ =~= before.classes@.update(class as int, self.classes@[class as int]));
        }
        r
    }
}

/// What may stand for what depends on the descriptor texts of the two types
/// alone.
pub proof fn lemma_assignable_by_text(
    classes: Seq<Klass>,
    a: FieldType,
    a2: FieldType,
    b: FieldType,
    b2: FieldType,
)
    requires
        a.text() == a2.text(),
        b.text() == b2.text(),
    ensures
        assignable(classes, a, b) == assignable(classes, a2, b2),
    decreases a,
{
    lemma_same_text(a, a2);
    lemma_same_text(b, b2);
    match (a, a2, b, b2) {
        (FieldType::Array(x), FieldType::Array(x2), FieldType::Array(y), FieldType::Array(y2)) => {
            lemma_same_text(*x, *x2);
            lemma_same_text(*y, *y2);
            lemma_assignable_by_text(classes, *x, *x2, *y, *y2);
        },
        _ => {},
    }
}

/// Whether a value whose run-time type has the descriptor `source` may
/// stand where the type with the descriptor `target` is asked for.
pub open spec fn assignable_texts(classes: Seq<Klass>, source: Seq<char>, target: Seq<char>) -> bool {
    assignable(classes, type_with_text(source), type_with_text(target))
}

/// What `is_assignable` finds of two types is what holds of their texts.
pub proof fn lemma_assignable_texts(classes: Seq<Klass>, a: FieldType, b: FieldType)
    ensures
        assignable(classes, a, b) == assignable_texts(classes, a.text(), b.text()),
{
    lemma_assignable_by_text(classes, a, type_with_text(a.text()), b, type_with_text(b.text()));
}

/// Two registries whose records have the same identities agree in who
/// inherits from whom.
pub proof fn lemma_inherits_same(a: Seq<Klass>, b: Seq<Klass>, i: int, target: Seq<char>)
    requires
        a.len() == b.len(),
        forall|j: int| 0 <= j < a.len() ==> same_identity(#[trigger] a[j], b[j]),
    ensures
        inherits(a, i, target) == inherits(b, i, target),
    decreases i,
{
    if 0 <= i < a.len() {
        assert(same_identity(a[i], b[i]));
        match (a[i], b[i]) {
            (Klass::Instance(x), Klass::Instance(y)) => {
                match x.super_index {
                    Some(j) => {
                        if j < i {
                            lemma_inherits_same(a, b, j as int, target);
                        }
                    },
                    None => {},
                }
                assert forall|t: int|
                    0 <= t < x.interface_indices@.len() && (#[trigger] x.interface_indices@[t]) < i implies inherits(
                    a,
                    x.interface_indices@[t] as int,
                    target,
                ) == inherits(b, x.interface_indices@[t] as int, target) by {
                    lemma_inherits_same(a, b, x.interface_indices@[t] as int, target);
                }
            },
            _ => {},
        }
    }
}

/// Two registries whose records have the same identities agree in what may
/// stand for what.
pub proof fn lemma_assignable_same(a: Seq<Klass>, b: Seq<Klass>)
    requires
        a.len() == b.len(),
        forall|j: int| 0 <= j < a.len() ==> same_identity(#[trigger] a[j], b[j]),
    ensures
        forall|source: FieldType, target: FieldType|
            assignable(a, source, target) == assignable(b, source, target),
{
    assert forall|source: FieldType, target: FieldType|
        assignable(a, source, target) == assignable(b, source, target) by {
        lemma_assignable_same_for(a, b, source, target);
    }
}

proof fn lemma_assignable_same_for(a: Seq<Klass>, b: Seq<Klass>, source: FieldType, target: FieldType)
    requires
        a.len() == b.len(),
        forall|j: int| 0 <= j < a.len() ==> same_identity(#[trigger] a[j], b[j]),
    ensures
        assignable(a, source, target) == assignable(b, source, target),
    decreases source,
{
    match (source, target) {
        (FieldType::ClassInstance(name), FieldType::ClassInstance(wanted)) => {
            assert forall|j: int| 0 <= j < a.len() implies (#[trigger] a[j]).spec_name() == b[j].spec_name() by {
                assert(same_identity(a[j], b[j]));
            }
            lemma_index_of_same_names(a, b, name@);
            lemma_index_of(a, name@);
            match index_of(a, name@) {
                Some(i) => {
                    assert(same_identity(a[i], b[i]));
                    lemma_inherits_same(a, b, i, wanted@);
                },
                None => {},
            }
        },
        (FieldType::Array(x), FieldType::Array(y)) => {
            lemma_assignable_same_for(a, b, *x, *y);
        },
        _ => {},
    }
}

} // verus!
