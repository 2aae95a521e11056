//! What holds of the machine as a whole, proved from the contracts of its
//! parts.

use vstd::prelude::*;
use vstd::utf8::{decode_utf8, encode_utf8, valid_utf8};

use crate::cell::{
    bits_of, cell_of, high_word, int_binary, int_of, int_shift, join_words, long_binary, long_of,
    long_order, long_shift, low_word, narrow, widen, Binary, Narrow, Shift,
};
use crate::error::VmError;
use crate::frame::{
    frame_plan, is_stack_only, local_effect, long_cells, operand_count, results, stack_effect,
    Effect, Frame, FrameState, Throwable,
};
use crate::constants::ldc_post;
use crate::fields::{
    class_of_object, field_key, get_static_post, overwritten, put_static_post, static_barrier, static_place, statics_changed, statics_of, value_cells,
};
use crate::descriptor::{spec_method_descriptor, MethodDescriptorView};
use crate::instr::{spec_decode, Instr, InvokeKind};
use crate::machine::{
    caught_post, execute_post, frame_post, ran, settled, thread_step_post, top_popped,
};
use crate::parse::{ConstantView, ExceptionTableItem};
use crate::heap::heap_grew;
use crate::interp::{
    array_registered, element_of, reference_array_post, same_but_pool, step_follows, step_of,
    waited, Step,
};
use crate::klass::{
    hierarchy_ok, index_of, is_prefix, layout_wf, lemma_index_of, lemma_index_of_same_names,
    lemma_offset_in_bound, offset_in, same_identity, total_width, Klass, KlassField, MethodArea,
};
use crate::memory::{
    as_initializing, blank_instance, ensure_class_post, init_class_post, instance_descriptor,
    is_linked_record, is_unlinked, lemma_unlinked_chain, link_class_post, linked_then_initialized, unlinked_chain,
    Ensured, GlobalMemory,
};
use crate::native::{
    class_with_mirror, native_post, plain_values, spec_native, spec_wrapper, Native,
};
use crate::strings::{
    byte_array_descriptor, bytes_of_cells, cells_of_bytes, coder_field_name, string_class, string_class_name,
    string_failure, string_field, string_made, text_of_string, value_field_name,
};
use crate::thread::{
    awaited, catches, covers, entered_post, handle_post, handler_for, invoke_post,
    invoked_locals, is_entered_frame, lemma_uncovered_is_uncaught, lookup_start, method_key,
    operands_dropped, popped_cells, raise_post, raised_cells, resume_length, table_of,
    throwable_class, thrown_class, top_changed, Thread,
};
use crate::vm::{is_thread_of, routed, vm_step_post, Signal, Task, VM};

verus! {

/// The instance-field layout of every class begins with the instance-field
/// layout of its superclass.
pub proof fn law_layout_begins_with_inherited(area: MethodArea, i: int)
    requires
        area.wf(),
        0 <= i < area.classes@.len(),
        area.classes@[i] is Instance,
        area.classes@[i]->Instance_0.super_index is Some,
    ensures
        ({
            let j = area.classes@[i]->Instance_0.super_index->0 as int;
            &&& 0 <= j < i
            &&& area.classes@[j] is Instance
            &&& is_prefix(area.classes@[j]->Instance_0.fields@, area.classes@[i]->Instance_0.fields@)
        }),
{
    assert(hierarchy_ok(area.classes@, i));
}

/// The static storage of a linked class has as many cells as the widths of
/// its static-field layout add up to.
pub proof fn law_static_storage_width(area: MethodArea, i: int)
    requires
        area.wf(),
        0 <= i < area.classes@.len(),
        area.classes@[i] is Instance,
        area.classes@[i]->Instance_0.spec_is_linked(),
    ensures
        area.classes@[i]->Instance_0.static_field_values@.len() == total_width(
            area.classes@[i]->Instance_0.static_fields@,
        ),
{
    assert(area.classes@[i].wf());
}

/// What `ensure_class` leaves initialized stays initialized through a
/// step of loading, linking or initializing.
pub proof fn law_initialized_stays(
    before: GlobalMemory,
    after: GlobalMemory,
    name: Seq<char>,
    r: Result<Ensured, VmError>,
    other: Seq<char>,
)
    requires
        before.wf(),
        ensure_class_post(before, after, name, r),
        before.method_area.is_initialized(other),
    ensures
        after.method_area.is_initialized(other),
{
    let x = before.method_area.classes@;
    let y = after.method_area.classes@;
    lemma_index_of(x, other);
    lemma_index_of(x, name);
    let k = index_of(x, other)->0;
    if y.len() == x.len() + 1 && y.drop_last() == x {
        crate::klass::lemma_index_of_push(x, y.last(), other);
        assert(y =~= x.push(y.last()));
        assert(y[k] == y.drop_last()[k]);
    } else if y != x {
        if y.len() == x.len() {
            assert forall|j: int| 0 <= j < x.len() implies (#[trigger] x[j]).spec_name() == y[j].spec_name() by {
                if x[j] != y[j] {
                    assert(same_identity(x[j], y[j]));
                }
            }
            lemma_index_of_same_names(x, y, other);
        }
    }
}

/// Where `ensure_class` answers `Ready` or `Run`, the class is initialized
/// when it returns; and where the call initialized it, the class is linked:
/// it has a resolved pool, a mirror, and static storage as wide as its
/// static-field layout.
pub proof fn law_ensured_class_is_initialized(
    before: GlobalMemory,
    after: GlobalMemory,
    name: Seq<char>,
    r: Result<Ensured, VmError>,
)
    requires
        before.wf(),
        ensure_class_post(before, after, name, r),
        r is Ok && (r->Ok_0 is Ready || r->Ok_0 is Run),
    ensures
        after.method_area.is_initialized(name),
        index_of(after.method_area.classes@, name) == index_of(before.method_area.classes@, name),
        !before.method_area.is_initialized(name) ==> ({
            let record = after.method_area.classes@[index_of(after.method_area.classes@, name)->0];
            &&& record is Instance
            &&& record->Instance_0.constant_pool is Some
            &&& (index_of(before.method_area.classes@, name) is Some
                && before.method_area.classes@[index_of(
                before.method_area.classes@,
                name,
            )->0]->Instance_0.constant_pool is None ==> {
                &&& record->Instance_0.java_clone is Some
                &&& record->Instance_0.static_field_values@.len() == total_width(
                    record->Instance_0.static_fields@,
                )
            })
        }),
{
    let x = before.method_area.classes@;
    let y = after.method_area.classes@;
    lemma_index_of(x, name);
    match index_of(x, name) {
        Some(i) => {
            if !x[i].spec_is_initialized() {
                assert(before.loading@.len() == 0);
                assert(before.method_area.classes.len() == x.len());
                let middle = if x[i]->Instance_0.constant_pool is None {
                    let linked = choose|linked: GlobalMemory|
                        linked_then_initialized(before, linked, after, i, r);
                    lemma_unlinked_chain(x, i);
                    let chain = unlinked_chain(x, i);
                    assert(is_linked_record(x[chain[0]], linked.method_area.classes@[chain[0]], (
                        before.heap.data@.len() + chain.len() - 1) as u32));
                    linked
                } else {
                    before
                };
                let z = middle.method_area.classes@;
                let ri = as_initializing(r);
                assert(init_class_post(middle, after, i as usize, ri));
                assert(same_identity(x[i], z[i]));
                assert(z[i]->Instance_0.constant_pool is Some);
                match crate::memory::initializer_of(z[i]->Instance_0) {
                    None => {},
                    Some(m) => {
                        assert(crate::frame::invocation_failure(z, i, m) is None);
                    },
                }
                assert(y.len() == x.len());
                assert(crate::memory::is_initialized_record(z[i], y[i]));
                assert forall|j: int| 0 <= j < x.len() implies (#[trigger] x[j]).spec_name() == y[j].spec_name() by {
                    if j != i {
                        assert(y[j] == z[j]);
                    }
                    if z[j] != x[j] {
                        assert(same_identity(x[j], z[j]));
                    }
                }
                lemma_index_of_same_names(x, y, name);
            }
        },
        None => {},
    }
}

/// A second `ensure_class` for a class changes nothing: where the first
/// call found the class initialized or initialized it, the second finds it
/// initialized and leaves the memory as it is.
pub proof fn law_ensure_class_idempotent(
    first: GlobalMemory,
    second: GlobalMemory,
    third: GlobalMemory,
    name: Seq<char>,
    r1: Result<Ensured, VmError>,
    r2: Result<Ensured, VmError>,
)
    requires
        first.wf(),
        ensure_class_post(first, second, name, r1),
        r1 is Ok && (r1->Ok_0 is Ready || r1->Ok_0 is Run),
        ensure_class_post(second, third, name, r2),
    ensures
        third == second,
        r2 is Ok && r2->Ok_0 is Ready,
{
    law_ensured_class_is_initialized(first, second, name, r1);
}

/// The frame of a class initializer is handed out only on the step that
/// takes its class from not initialized to initialized; for a class that
/// is initialized, none is handed out. So the initializer of a class runs
/// at most once.
pub proof fn law_initializer_runs_once(
    before: GlobalMemory,
    after: GlobalMemory,
    class: usize,
    r: Result<Option<Frame>, VmError>,
)
    requires
        init_class_post(before, after, class, r),
        r is Ok && r->Ok_0 is Some,
    ensures
        !before.method_area.classes@[class as int].spec_is_initialized(),
        after.method_area.classes@[class as int].spec_is_initialized(),
        forall|later: GlobalMemory, r2: Result<Option<Frame>, VmError>|
            #![trigger init_class_post(after, later, class, r2)]
            init_class_post(after, later, class, r2) ==> r2 is Ok && r2->Ok_0 is None,
{
}

/// The operand stack of a frame of the machine is never deeper than its
/// method allows. The reference to an exception that is on its way, which
/// is the topmost cell of the running frame of its thread, is not counted.
pub proof fn law_frames_within_bounds(vm: VM, t: int, f: int)
    requires
        vm.wf(),
        0 <= t < vm.threads@.len(),
        0 <= f < vm.threads@[t].jvm_stack@.len(),
    ensures
        ({
            let thread = vm.threads@[t];
            let depth = thread.jvm_stack@[f].operand_stack@.len();
            if thread.is_throwing && f == thread.jvm_stack@.len() - 1 {
                1 <= depth <= thread.jvm_stack@[f].max_stack + 1
            } else {
                depth <= thread.jvm_stack@[f].max_stack
            }
        }),
{
    assert(vm.threads@[t].wf());
    assert(vm.threads@[t].jvm_stack@[f].wf() || vm.threads@[t].jvm_stack@[f].carrying());
}

/// A category-2 value takes two consecutive cells of the operand stack,
/// which an instruction on it consumes as one value: a `long` operation on
/// the four cells of two values leaves the two cells of its result.
pub proof fn law_long_takes_two_cells(op: Binary, a: u64, b: u64)
    ensures
        operand_count(Instr::LongBinary(op)) == 4,
        long_cells(a).len() == 2,
        join_words(long_cells(a)[0], long_cells(a)[1]) == a,
        results(Instr::LongBinary(op), long_cells(a) + long_cells(b)) == match long_binary(op, a, b) {
            Some(v) => Some(long_cells(v)),
            None => None,
        },
{
    let o = long_cells(a) + long_cells(b);
    assert(o[0] == high_word(a) && o[1] == low_word(a) && o[2] == high_word(b) && o[3] == low_word(
        b,
    ));
    assert(join_words(high_word(a), low_word(a)) == a);
    assert(join_words(high_word(b), low_word(b)) == b);
}

/// `Double.longBitsToDouble` of `Double.doubleToRawLongBits` of a value
/// gives back every bit of it: each of the two methods returns the two
/// cells of its argument as they are.
pub proof fn law_double_bits_round_trip(locals: Seq<u32>)
    requires
        locals.len() >= 2,
    ensures
        plain_values(Native::Pass(2), locals) == Some(
            Ok::<Seq<u32>, VmError>(locals.subrange(0, 2)),
        ),
        plain_values(Native::Pass(2), locals.subrange(0, 2)) == Some(
            Ok::<Seq<u32>, VmError>(locals.subrange(0, 2)),
        ),
        spec_native("java/lang/Double"@, "doubleToRawLongBits"@) == Some(Native::Pass(2)),
        spec_native("java/lang/Double"@, "longBitsToDouble"@) == Some(Native::Pass(2)),
{
    assert(locals.subrange(0, 2).subrange(0, 2) =~= locals.subrange(0, 2));
    reveal_strlit("java/lang/Double");
    reveal_strlit("java/lang/Object");
    reveal_strlit("java/lang/Class");
    reveal_strlit("java/lang/System");
    reveal_strlit("java/lang/StringUTF16");
    reveal_strlit("java/lang/Float");
    reveal_strlit("doubleToRawLongBits");
    reveal_strlit("longBitsToDouble");
    assert("java/lang/Double"@[10] == 'D');
    assert("java/lang/Object"@[10] == 'O');
    assert("java/lang/System"@[10] == 'S');
    assert("doubleToRawLongBits"@[0] == 'd');
    assert("longBitsToDouble"@[0] == 'l');
}

/// The value of the low 8 bits of an `int`, read as a signed byte: what the
/// cast `(byte)` gives.
pub open spec fn byte_value(x: u32) -> int {
    let low = int_of(x) % 0x100;
    if low < 0x80 {
        low
    } else {
        low - 0x100
    }
}

/// `l2i` of `i2l` of an `int` is the `int`, and `i2b` of that is the
/// `int` cast to a byte.
pub proof fn law_widen_then_narrow(x: u32)
    ensures
        low_word(widen(x)) == x,
        narrow(Narrow::Byte, low_word(widen(x))) == cell_of(byte_value(x)),
{
    lemma_low_of_widened(x);
    lemma_narrow_is_byte_value(x);
}

/// The low word of a widened `int` is the `int`.
proof fn lemma_low_of_widened(x: u32)
    ensures
        low_word(widen(x)) == x,
{
    let v = int_of(x);
    if x < 0x8000_0000 {
        assert(v % 0x1_0000_0000_0000_0000 == x as int);
    } else {
        assert(v % 0x1_0000_0000_0000_0000 == x as int + 0xffff_ffff_0000_0000);
        assert((x as int + 0xffff_ffff_0000_0000) % 0x1_0000_0000 == x as int);
    }
}

/// Narrowing an `int` to a byte gives its low 8 bits with the sign
/// extended.
proof fn lemma_narrow_is_byte_value(x: u32)
    ensures
        narrow(Narrow::Byte, x) == cell_of(byte_value(x)),
{
    let low = int_of(x) % 0x100;
    assert(low == (x as int) % 0x100);
    if low >= 0x80 {
        assert((low - 0x100) % 0x1_0000_0000 == low + 0xffff_ff00);
    } else {
        assert(low % 0x1_0000_0000 == low);
    }
}

/// An integer division by zero raises `ArithmeticException`, whatever the
/// dividend.
pub proof fn law_division_by_zero_raises(s: FrameState, max_stack: int, length: int)
    requires
        s.stack.len() >= 2,
        s.stack[s.stack.len() - 1] == 0,
    ensures
        stack_effect(Instr::IntBinary(Binary::Div), length, s, max_stack) == Ok::<Effect, VmError>(
            Effect::Raise(Throwable::Arithmetic),
        ),
        stack_effect(Instr::IntBinary(Binary::Rem), length, s, max_stack) == Ok::<Effect, VmError>(
            Effect::Raise(Throwable::Arithmetic),
        ),
{
}

/// The least `int` divided by -1 is the least `int`.
pub proof fn law_least_int_by_minus_one()
    ensures
        int_binary(Binary::Div, 0x8000_0000, 0xffff_ffff) == Some(0x8000_0000u32),
{
    assert(int_of(0x8000_0000) == -0x8000_0000);
    assert(int_of(0xffff_ffff) == -1);
    assert(0x8000_0000int / 1 == 0x8000_0000);
    assert(crate::cell::trunc_div(-0x8000_0000, -1) == 0x8000_0000);
}

/// A shift of an `int` uses the low five bits of its count, and a shift of
/// a `long` the low six.
pub proof fn law_shift_count_is_masked(op: Shift, a: u32, b: u64, s: u32)
    ensures
        int_shift(op, a, s) == int_shift(op, a, s & 0x1f),
        long_shift(op, b, s) == long_shift(op, b, s & 0x3f),
{
    assert(s & 0x1f == s % 32) by (bit_vector);
    assert(s & 0x3f == s % 64) by (bit_vector);
}

/// Two fields that are found at the same offset of a layout have the same
/// name.
pub proof fn lemma_offsets_differ(layout: Seq<KlassField>, a: Seq<char>, b: Seq<char>)
    requires
        layout_wf(layout),
        offset_in(layout, a) is Some,
        offset_in(layout, a) == offset_in(layout, b),
    ensures
        a == b,
    decreases layout.len(),
{
    if layout.len() > 0 {
        let before = layout.drop_last();
        lemma_offset_in_bound(before, a);
        lemma_offset_in_bound(before, b);
        if offset_in(before, a) is Some && offset_in(before, b) is Some {
            lemma_offsets_differ(before, a, b);
        }
    }
}

/// A new string is an object with the descriptor `Ljava/lang/String;`
/// whose field `coder` is 1 and whose field `value` refers to an array
/// with the descriptor `[B`; the cells of that array are the bytes of the
/// Utf8 constant that the text was decoded from, one byte in each cell and
/// in their order.
pub proof fn law_string_holds_its_bytes(before: GlobalMemory, after: GlobalMemory, bytes: Seq<u8>)
    requires
        before.wf(),
        valid_utf8(bytes),
        string_failure(before) is None,
        string_made(before, after, decode_utf8(bytes)),
    ensures
        ({
            let classes = before.method_area.classes@;
            let n = before.heap.data@.len() as int;
            let value = string_field(classes, value_field_name())->0 as int;
            let coder = string_field(classes, coder_field_name())->0 as int;
            &&& after.heap.data@[n]@.descriptor == "Ljava/lang/String;"@
            &&& 0 <= value < after.heap.data@[n]@.cells.len()
            &&& after.heap.data@[n]@.cells[value] == (n + 1) as u32
            &&& 0 <= coder < after.heap.data@[n]@.cells.len()
            &&& after.heap.data@[n]@.cells[coder] == 1
            &&& after.heap.data@[n + 1]@.descriptor == "[B"@
            &&& after.heap.data@[n + 1]@.cells == cells_of_bytes(bytes)
            &&& bytes_of_cells(after.heap.data@[n + 1]@.cells) == bytes
        }),
{
    reveal_strlit("Ljava/lang/String;");
    reveal_strlit("java/lang/String");
    reveal_strlit("[B");
    assert(instance_descriptor(string_class_name()) =~= "Ljava/lang/String;"@);
    assert(byte_array_descriptor() =~= "[B"@);
    let classes = before.method_area.classes@;
    let i = string_class(classes)->0;
    lemma_index_of(classes, crate::strings::string_class_name());
    assert(classes[i].wf());
    let layout = classes[i]->Instance_0.fields@;
    lemma_offset_in_bound(layout, value_field_name());
    lemma_offset_in_bound(layout, coder_field_name());
    if offset_in(layout, value_field_name()) == offset_in(layout, coder_field_name()) {
        lemma_offsets_differ(layout, value_field_name(), coder_field_name());
        assert(value_field_name()[0] == 'v');
        assert(coder_field_name()[0] == 'c');
    }
    vstd::utf8::decode_utf8_encode_utf8(bytes);
    assert(bytes_of_cells(cells_of_bytes(bytes)) =~= bytes);
}

/// The bytes of a new string spell its text: read as UTF-8, the cells of
/// the byte array of a string that was made for a text give that text.
pub proof fn law_string_round_trip(text: Seq<char>)
    ensures
        bytes_of_cells(cells_of_bytes(encode_utf8(text))) == encode_utf8(text),
        valid_utf8(encode_utf8(text)),
        decode_utf8(encode_utf8(text)) == text,
{
    assert(bytes_of_cells(cells_of_bytes(encode_utf8(text))) =~= encode_utf8(text));
    vstd::utf8::encode_utf8_valid_utf8(text);
    vstd::utf8::encode_utf8_decode_utf8(text);
}

/// A load, a store or an increment that names a local variable beyond
/// those of its frame fails, and changes nothing.
pub proof fn law_local_index_is_checked(index: u16, delta: u32, s: FrameState, max_stack: int)
    requires
        index >= s.locals.len(),
    ensures
        local_effect(Instr::Load1(index), 1, s, max_stack) == Err::<Effect, VmError>(
            VmError::BadLocal,
        ),
        local_effect(Instr::Load2(index), 1, s, max_stack) == Err::<Effect, VmError>(
            VmError::BadLocal,
        ),
        local_effect(Instr::Store1(index), 1, s, max_stack) == Err::<Effect, VmError>(
            VmError::BadLocal,
        ),
        local_effect(Instr::Store2(index), 1, s, max_stack) == Err::<Effect, VmError>(
            VmError::BadLocal,
        ),
        local_effect(Instr::Increment(index, delta), 3, s, max_stack) == Err::<Effect, VmError>(
            VmError::BadLocal,
        ),
{
}

/// An exception raised at an address that no entry of the exception table
/// of the running frame covers goes up to the invoker: the frame is
/// dropped, the reference is pushed onto the operand stack of the invoker,
/// however deep that stack is, the local variables and the instruction
/// counter of the invoker stay as they are, and the exception is on its
/// way.
pub proof fn law_uncovered_exception_goes_up(
    before: GlobalMemory,
    after: GlobalMemory,
    thread0: Thread,
    thread1: Thread,
    objectref: u32,
    r: Result<Step, VmError>,
)
    requires
        handle_post(before, after, thread0, thread1, objectref, r),
        thrown_class(before, objectref) is Ok,
        thread0.jvm_stack@.len() >= 2,
        forall|i: int|
            0 <= i < table_of(thread0.jvm_stack@.last()).len() ==> !covers(
                #[trigger] table_of(thread0.jvm_stack@.last())[i],
                thread0.jvm_stack@.last().instruction_counter as int,
            ),
    ensures
        r == Ok::<Step, VmError>(Step::Next),
        thread1.is_throwing,
        thread1.jvm_stack@.len() == thread0.jvm_stack@.len() - 1,
        thread1.jvm_stack@.drop_last() == thread0.jvm_stack@.subrange(
            0,
            thread0.jvm_stack@.len() - 2,
        ),
        ({
            let invoker = thread0.jvm_stack@[thread0.jvm_stack@.len() - 2];
            &&& thread1.jvm_stack@.last().operand_stack@ == invoker.operand_stack@.push(objectref)
            &&& thread1.jvm_stack@.last().local_variables@ == invoker.local_variables@
            &&& thread1.jvm_stack@.last().instruction_counter == invoker.instruction_counter
            &&& thread1.jvm_stack@.last().same_method(&invoker)
        }),
{
    let frame0 = thread0.jvm_stack@.last();
    let invoker = thread0.jvm_stack@[thread0.jvm_stack@.len() - 2];
    assert(invoker@.stack.subrange(0, invoker@.stack.len() - 0) + seq![objectref]
        =~= invoker.operand_stack@.push(objectref));
    lemma_uncovered_is_uncaught(
        before.method_area,
        frame0.constant_pool as int,
        table_of(frame0),
        frame0.instruction_counter as int,
        thrown_class(before, objectref)->Ok_0,
    );
}

/// Whether every class that is initialized in `before` is initialized in
/// `after`.
pub open spec fn keeps_initialized(before: GlobalMemory, after: GlobalMemory) -> bool {
    forall|name: Seq<char>|
        before.method_area.is_initialized(name) ==> #[trigger] after.method_area.is_initialized(name)
}

/// Records that keep their names and what they have of initialization keep
/// every class initialized.
pub proof fn lemma_keeps_by_records(before: GlobalMemory, after: GlobalMemory)
    requires
        after.method_area.classes@.len() >= before.method_area.classes@.len(),
        forall|j: int|
            0 <= j < before.method_area.classes@.len() ==> (
            #[trigger] after.method_area.classes@[j]).spec_name()
                == before.method_area.classes@[j].spec_name() && (
            before.method_area.classes@[j].spec_is_initialized()
                ==> after.method_area.classes@[j].spec_is_initialized()),
    ensures
        keeps_initialized(before, after),
{
    let x = before.method_area.classes@;
    let y = after.method_area.classes@;
    assert forall|name: Seq<char>| before.method_area.is_initialized(name) implies #[trigger]
    after.method_area.is_initialized(name) by {
        lemma_index_of(x, name);
        let k = index_of(x, name)->0;
        let head = y.subrange(0, x.len() as int);
        assert forall|j: int| 0 <= j < x.len() implies (#[trigger] x[j]).spec_name() == head[j].spec_name() by {
            assert(head[j] == y[j]);
        }
        lemma_index_of_same_names(x, head, name);
        crate::klass::lemma_index_of_prefix(y, name, x.len() as int);
        assert(head[k] == y[k]);
    }
}

/// A step of `ensure_class` keeps every class initialized.
pub proof fn lemma_ensure_keeps(
    before: GlobalMemory,
    after: GlobalMemory,
    name: Seq<char>,
    r: Result<Ensured, VmError>,
)
    requires
        ensure_class_post(before, after, name, r),
    ensures
        keeps_initialized(before, after),
{
    let x = before.method_area.classes@;
    let y = after.method_area.classes@;
    assert(before.method_area.classes.len() == x.len());
    if y.len() == x.len() + 1 && y.drop_last() == x {
        assert forall|j: int| 0 <= j < x.len() implies (#[trigger] y[j]) == x[j] by {
            assert(y.drop_last()[j] == y[j]);
        }
        lemma_keeps_by_records(before, after);
    } else if y == x {
        lemma_keeps_by_records(before, after);
    } else {
        lemma_index_of(x, name);
        assert(y.len() == x.len());
        assert forall|j: int| 0 <= j < x.len() implies (#[trigger] y[j]).spec_name() == x[j].spec_name()
            && (x[j].spec_is_initialized() ==> y[j].spec_is_initialized()) by {
            if x[j] != y[j] {
                assert(same_identity(x[j], y[j]));
            }
        }
        lemma_keeps_by_records(before, after);
    }
}

/// What is kept twice is kept.
pub proof fn lemma_keeps_twice(a: GlobalMemory, b: GlobalMemory, c: GlobalMemory)
    requires
        keeps_initialized(a, b),
        keeps_initialized(b, c),
    ensures
        keeps_initialized(a, c),
{
    assert forall|name: Seq<char>| a.method_area.is_initialized(name) implies #[trigger]
    c.method_area.is_initialized(name) by {
        assert(b.method_area.is_initialized(name));
    }
}

/// A method area that differs in the resolved constants of a class keeps
/// every class initialized.
pub proof fn lemma_pool_keeps(before: GlobalMemory, after: GlobalMemory, class: int)
    requires
        before.method_area.differs_in_pool(&after.method_area, class),
    ensures
        keeps_initialized(before, after),
{
    let x = before.method_area.classes@;
    let y = after.method_area.classes@;
    assert forall|j: int| 0 <= j < x.len() implies (#[trigger] y[j]).spec_name() == x[j].spec_name()
        && (x[j].spec_is_initialized() ==> y[j].spec_is_initialized()) by {
        if j != class {
            assert(x[j] == y[j]);
        }
    }
    lemma_keeps_by_records(before, after);
}

/// Waiting for a class keeps every class initialized.
pub proof fn lemma_waited_keeps(
    before: GlobalMemory,
    after: GlobalMemory,
    class: int,
    name: Seq<char>,
    r: Result<Step, VmError>,
)
    requires
        waited(before, after, class, name, r),
    ensures
        keeps_initialized(before, after),
{
    let (mid, er) = choose|mid: GlobalMemory, er: Result<Ensured, VmError>|
        same_but_pool(before, mid, class) && #[trigger] ensure_class_post(mid, after, name, er)
            && r == step_of(er);
    lemma_pool_keeps(before, mid, class);
    lemma_ensure_keeps(mid, after, name, er);
    lemma_keeps_twice(before, mid, after);
}

/// Waiting for a class keeps every class initialized.
pub proof fn lemma_awaited_keeps(
    before: GlobalMemory,
    after: GlobalMemory,
    name: Seq<char>,
    r: Result<Step, VmError>,
)
    requires
        awaited(before, after, name, r),
    ensures
        keeps_initialized(before, after),
{
    let er = choose|er: Result<Ensured, VmError>| #[trigger]
        ensure_class_post(before, after, name, er) && r == step_of(er);
    lemma_ensure_keeps(before, after, name, er);
}

/// Registering an array class keeps every class initialized.
pub proof fn lemma_registered_keeps(
    before: GlobalMemory,
    after: GlobalMemory,
    class: int,
    name: Seq<char>,
    r: Result<Step, VmError>,
)
    requires
        array_registered(before, after, class, name, r),
    ensures
        keeps_initialized(before, after),
{
    let mid = choose|mid: GlobalMemory|
        {
            &&& #[trigger] same_but_pool(before, mid, class)
            &&& after.loading == mid.loading
            &&& match mid.mirror_failure() {
                Some(e) => r == Err::<Step, VmError>(e) && after.heap == mid.heap
                    && after.method_area == mid.method_area,
                None => {
                    &&& r == Ok::<Step, VmError>(Step::Again)
                    &&& heap_grew(mid.heap, after.heap, mid.blank_mirror())
                    &&& after.method_area.classes@.len() == mid.method_area.classes@.len() + 1
                    &&& after.method_area.classes@.drop_last() == mid.method_area.classes@
                    &&& after.method_area.classes@.last() is Array
                    &&& after.method_area.classes@.last().spec_name() == name
                    &&& after.method_area.classes@.last()->Array_0.java_clone == Some(
                        mid.heap.data@.len() as u32,
                    )
                },
            }
        };
    lemma_pool_keeps(before, mid, class);
    let x = mid.method_area.classes@;
    let y = after.method_area.classes@;
    if y.len() == x.len() + 1 {
        assert forall|j: int| 0 <= j < x.len() implies (#[trigger] y[j]) == x[j] by {
            assert(y.drop_last()[j] == y[j]);
        }
    }
    lemma_keeps_by_records(mid, after);
    lemma_keeps_twice(before, mid, after);
}

/// Changed static storage keeps every class initialized.
pub proof fn lemma_statics_keep(
    before: GlobalMemory,
    after: GlobalMemory,
    class: int,
    i: int,
    values: Seq<u32>,
)
    requires
        statics_changed(before.method_area, after.method_area, class, i, values),
    ensures
        keeps_initialized(before, after),
{
    let x = before.method_area.classes@;
    let y = after.method_area.classes@;
    assert forall|j: int| 0 <= j < x.len() implies (#[trigger] y[j]).spec_name() == x[j].spec_name()
        && (x[j].spec_is_initialized() ==> y[j].spec_is_initialized()) by {
        if j != class && j != i {
            assert(y[j] == x[j]);
        } else {
            assert(same_identity(x[j], y[j]) || x[j] == y[j]);
        }
    }
    lemma_keeps_by_records(before, after);
}

/// An instruction that stays in its frame keeps every class initialized.
pub proof fn lemma_frame_post_keeps(
    instr: Instr,
    length: int,
    before: GlobalMemory,
    after: GlobalMemory,
    frame0: Frame,
    frame1: Frame,
    r: Result<Step, VmError>,
)
    requires
        frame_post(instr, length, before, after, frame0, frame1, r),
    ensures
        keeps_initialized(before, after),
{
    let class = frame0.constant_pool as int;
    let classes = before.method_area.classes@;
    match instr {
        Instr::New(index) => {
            match before.method_area.spec_constant(class, index as int) {
                Some(ConstantView::Class(name)) => {
                    if frame0.operand_stack@.len() < frame0.max_stack
                        && !before.method_area.is_initialized(name) {
                        lemma_waited_keeps(before, after, class, name, r);
                    } else {
                        lemma_pool_keeps(before, after, class);
                    }
                },
                _ => {
                    lemma_pool_keeps(before, after, class);
                },
            }
        },
        Instr::ANewArray(index) => {
            lemma_reference_array_keeps(before, after, frame0, frame1, index, false, length, r);
        },
        Instr::MultiNewArray(index, dimensions) => {
            if dimensions == 1 {
                lemma_reference_array_keeps(before, after, frame0, frame1, index, true, length, r);
            }
        },
        Instr::GetStatic(index) => {
            match field_key(before.method_area.spec_constant(class, index as int)) {
                Some(key) => match value_cells(key.descriptor) {
                    Some(width) => {
                        if frame0.operand_stack@.len() + width <= frame0.max_stack
                            && !before.method_area.is_initialized(key.class) {
                            lemma_waited_keeps(before, after, class, key.class, r);
                        } else {
                            lemma_pool_keeps(before, after, class);
                        }
                    },
                    None => {
                        lemma_pool_keeps(before, after, class);
                    },
                },
                None => {
                    lemma_pool_keeps(before, after, class);
                },
            }
        },
        Instr::PutStatic(index) => {
            match field_key(before.method_area.spec_constant(class, index as int)) {
                Some(key) => match value_cells(key.descriptor) {
                    Some(width) => {
                        if frame0.operand_stack@.len() < width {
                            lemma_pool_keeps(before, after, class);
                        } else if !before.method_area.is_initialized(key.class) {
                            lemma_waited_keeps(before, after, class, key.class, r);
                        } else {
                            match static_barrier(classes, key, width) {
                                Some(e) => {
                                    lemma_pool_keeps(before, after, class);
                                },
                                None => {
                                    let (i, offset) = static_place(classes, key);
                                    let depth = frame0.operand_stack@.len() as int;
                                    lemma_statics_keep(
                                        before,
                                        after,
                                        class,
                                        i,
                                        overwritten(
                                            statics_of(classes, i),
                                            offset,
                                            frame0.operand_stack@.subrange(depth - width, depth),
                                        ),
                                    );
                                },
                            }
                        }
                    },
                    None => {
                        lemma_pool_keeps(before, after, class);
                    },
                },
                None => {
                    lemma_pool_keeps(before, after, class);
                },
            }
        },
        Instr::GetField(_) | Instr::Ldc2(_) | Instr::CheckCast(_) | Instr::InstanceOf(_)
        | Instr::PutField(_) => {
            lemma_pool_keeps(before, after, class);
        },
        Instr::Ldc(index) => {
            lemma_ldc_keeps(before, after, frame0, frame1, index, length, r);
        },
        _ => {},
    }
}

/// The making of an array of references keeps every class initialized.
pub proof fn lemma_reference_array_keeps(
    before: GlobalMemory,
    after: GlobalMemory,
    frame0: Frame,
    frame1: Frame,
    index: u16,
    whole: bool,
    length: int,
    r: Result<Step, VmError>,
)
    requires
        reference_array_post(before, after, frame0, frame1, index, whole, length, r),
    ensures
        keeps_initialized(before, after),
{
    let class = frame0.constant_pool as int;
    match before.method_area.spec_constant(class, index as int) {
        Some(ConstantView::Class(name)) => match element_of(name, whole) {
            Some(element) => {
                if index_of(before.method_area.classes@, seq!['['] + element) is None {
                    lemma_registered_keeps(before, after, class, seq!['['] + element, r);
                } else {
                    lemma_pool_keeps(before, after, class);
                }
            },
            None => {
                lemma_pool_keeps(before, after, class);
            },
        },
        _ => {
            lemma_pool_keeps(before, after, class);
        },
    }
}

/// The loading of a constant keeps every class initialized.
pub proof fn lemma_ldc_keeps(
    before: GlobalMemory,
    after: GlobalMemory,
    frame0: Frame,
    frame1: Frame,
    index: u16,
    length: int,
    r: Result<Step, VmError>,
)
    requires
        ldc_post(before, after, frame0, frame1, index, length, r),
    ensures
        keeps_initialized(before, after),
{
    let class = frame0.constant_pool as int;
    let classes = before.method_area.classes@;
    match before.method_area.spec_constant(class, index as int) {
        None => {
            lemma_pool_keeps(before, after, class);
        },
        Some(constant) => {
            if !(constant is Integer || constant is Float || constant is String || constant is Class)
                || frame0.operand_stack@.len() >= frame0.max_stack {
                lemma_pool_keeps(before, after, class);
            } else {
                match constant {
                    ConstantView::String(text) => {
                        if !before.method_area.is_initialized(string_class_name()) {
                            lemma_waited_keeps(before, after, class, string_class_name(), r);
                        } else if string_failure(before) is Some {
                            lemma_pool_keeps(before, after, class);
                        } else {
                            let mid = choose|mid: GlobalMemory| #[trigger]
                                same_but_pool(before, mid, class) && string_made(mid, after, text);
                            lemma_pool_keeps(before, mid, class);
                            lemma_keeps_twice(before, mid, after);
                        }
                    },
                    ConstantView::Class(name) => {
                        if name.len() >= 1 && name[0] == '[' && index_of(classes, name) is None {
                            lemma_registered_keeps(before, after, class, name, r);
                        } else if !before.method_area.is_initialized(name) {
                            lemma_waited_keeps(before, after, class, name, r);
                        } else {
                            lemma_pool_keeps(before, after, class);
                        }
                    },
                    _ => {
                        lemma_pool_keeps(before, after, class);
                    },
                }
            }
        },
    }
}

/// An invocation keeps every class initialized.
pub proof fn lemma_invoke_keeps(
    before: GlobalMemory,
    after: GlobalMemory,
    thread0: Thread,
    thread1: Thread,
    kind: InvokeKind,
    index: u16,
    r: Result<Step, VmError>,
)
    requires
        invoke_post(before, after, thread0, thread1, kind, index, r),
    ensures
        keeps_initialized(before, after),
{
    let frame0 = thread0.jvm_stack@.last();
    let class = frame0.constant_pool as int;
    match method_key(before.method_area.spec_constant(class, index as int)) {
        Some(key) => match spec_method_descriptor(key.descriptor) {
            Some(descriptor) => {
                let popped = popped_cells(kind, descriptor) as int;
                if frame0.operand_stack@.len() >= popped && !before.method_area.is_initialized(
                    key.class,
                ) {
                    lemma_waited_keeps(before, after, class, key.class, r);
                } else {
                    lemma_pool_keeps(before, after, class);
                }
            },
            None => {
                lemma_pool_keeps(before, after, class);
            },
        },
        None => {
            lemma_pool_keeps(before, after, class);
        },
    }
}

/// The handling of an exception keeps every class initialized.
pub proof fn lemma_handle_keeps(
    before: GlobalMemory,
    after: GlobalMemory,
    thread0: Thread,
    thread1: Thread,
    objectref: u32,
    r: Result<Step, VmError>,
)
    requires
        handle_post(before, after, thread0, thread1, objectref, r),
    ensures
        keeps_initialized(before, after),
{
    lemma_pool_keeps(before, after, thread0.jvm_stack@.last().constant_pool as int);
}

/// The taking up of an exception keeps every class initialized.
pub proof fn lemma_caught_keeps(
    before: GlobalMemory,
    after: GlobalMemory,
    thread0: Thread,
    thread1: Thread,
    r: Result<Step, VmError>,
)
    requires
        caught_post(before, after, thread0, thread1, r),
    ensures
        keeps_initialized(before, after),
{
    let popped = choose|popped: Thread|
        top_popped(thread0, popped) && #[trigger] handle_post(
            before,
            after,
            popped,
            thread1,
            thread0.jvm_stack@.last().operand_stack@.last(),
            r,
        );
    lemma_handle_keeps(
        before,
        after,
        popped,
        thread1,
        thread0.jvm_stack@.last().operand_stack@.last(),
        r,
    );
}

/// The raising of an exception keeps every class initialized.
pub proof fn lemma_raise_keeps(
    before: GlobalMemory,
    after: GlobalMemory,
    thread0: Thread,
    thread1: Thread,
    kind: Throwable,
    r: Result<Step, VmError>,
)
    requires
        raise_post(before, after, thread0, thread1, kind, r),
    ensures
        keeps_initialized(before, after),
{
    let name = throwable_class(kind);
    let classes = before.method_area.classes@;
    if !before.method_area.is_initialized(name) {
        lemma_awaited_keeps(before, after, name, r);
    } else {
        let i = index_of(classes, name)->0;
        let frame0 = thread0.jvm_stack@.last();
        let pops = raised_cells(classes, frame0) as int;
        if frame0.operand_stack@.len() >= pops && before.instance_failure(i) is None {
            let (mid, popped) = choose|mid: GlobalMemory, popped: Thread|
                {
                    &&& mid.method_area == before.method_area
                    &&& mid.loading == before.loading
                    &&& heap_grew(before.heap, mid.heap, blank_instance(classes, i))
                    &&& operands_dropped(thread0, popped, pops)
                    &&& #[trigger] handle_post(
                        mid,
                        after,
                        popped,
                        thread1,
                        before.heap.data@.len() as u32,
                        r,
                    )
                };
            lemma_handle_keeps(mid, after, popped, thread1, before.heap.data@.len() as u32, r);
            lemma_keeps_twice(before, mid, after);
        }
    }
}

/// A native method keeps every class initialized.
pub proof fn lemma_native_keeps(
    before: GlobalMemory,
    after: GlobalMemory,
    thread0: Thread,
    thread1: Thread,
    r: Result<Step, VmError>,
)
    requires
        native_post(before, after, thread0, thread1, r),
    ensures
        keeps_initialized(before, after),
{
    let frame0 = thread0.jvm_stack@.last();
    let locals = frame0.local_variables@;
    let classes = before.method_area.classes@;
    match spec_native(frame0.class_name@, frame0.method_name@) {
        Some(Native::InitClassName) => {
            if locals.len() >= 1 && class_with_mirror(classes, locals[0]) is Some
                && !before.method_area.is_initialized(string_class_name()) {
                lemma_awaited_keeps(before, after, string_class_name(), r);
            }
        },
        Some(Native::GetPrimitiveClass) => {
            if locals.len() >= 1 {
                match text_of_string(before, locals[0]) {
                    Ok(text) => match spec_wrapper(text) {
                        Some(wrapper) => {
                            if !before.method_area.is_initialized(wrapper) {
                                lemma_awaited_keeps(before, after, wrapper, r);
                            }
                        },
                        None => {},
                    },
                    Err(_) => {},
                }
            }
        },
        _ => {},
    }
}

/// An instruction keeps every class initialized.
pub proof fn lemma_execute_keeps(
    instr: Instr,
    length: int,
    before: GlobalMemory,
    after: GlobalMemory,
    thread0: Thread,
    thread1: Thread,
    r: Result<Step, VmError>,
)
    requires
        execute_post(instr, length, before, after, thread0, thread1, r),
    ensures
        keeps_initialized(before, after),
{
    match instr {
        Instr::Invoke(kind, index) => {
            lemma_invoke_keeps(before, after, thread0, thread1, kind, index, r);
        },
        Instr::Return(_) => {},
        Instr::Throw => {
            let stack = thread0.jvm_stack@.last().operand_stack@;
            if stack.len() >= 1 && stack.last() != 0 {
                lemma_caught_keeps(before, after, thread0, thread1, r);
            }
        },
        Instr::Float(_) => {},
        _ => {
            lemma_frame_post_keeps(
                instr,
                length,
                before,
                after,
                thread0.jvm_stack@.last(),
                thread1.jvm_stack@.last(),
                r,
            );
        },
    }
}

/// A step of a thread keeps every class initialized.
pub proof fn lemma_thread_step_keeps(
    before: GlobalMemory,
    after: GlobalMemory,
    thread0: Thread,
    thread1: Thread,
    r: Result<Step, VmError>,
)
    requires
        thread_step_post(before, after, thread0, thread1, r),
    ensures
        keeps_initialized(before, after),
{
    if thread0.jvm_stack@.len() == 0 {
    } else if thread0.is_throwing {
        lemma_caught_keeps(before, after, thread0, thread1, r);
    } else {
        let (mid, between, r0) = choose|
            mid: GlobalMemory,
            between: Thread,
            r0: Result<Step, VmError>,
        |
            #[trigger] ran(before, mid, thread0, between, r0) && settled(
                mid,
                after,
                between,
                thread1,
                r0,
                r,
            );
        let frame0 = thread0.jvm_stack@.last();
        if frame0.running_native {
            lemma_native_keeps(before, mid, thread0, between, r0);
        } else {
            match spec_decode(frame0.code(), frame0.instruction_counter as int) {
                Ok((instr, length)) => {
                    lemma_execute_keeps(instr, length, before, mid, thread0, between, r0);
                },
                Err(_) => {},
            }
        }
        match r0 {
            Ok(Step::Raise(kind)) => {
                lemma_raise_keeps(mid, after, between, thread1, kind, r);
            },
            _ => {},
        }
        lemma_keeps_twice(before, mid, after);
    }
}

/// A class that is initialized stays initialized through every step of the
/// machine. With `law_initializer_runs_once`, which says that the frame of
/// a class initializer is made only on the step that marks its class as
/// initialized, this is why no class initializer runs twice.
pub proof fn law_step_keeps_initialized(vm0: VM, vm1: VM, r: Result<Signal, VmError>)
    requires
        vm_step_post(vm0, vm1, r),
    ensures
        keeps_initialized(vm0.global_memory, vm1.global_memory),
{
    let before = vm0.global_memory;
    let after = vm1.global_memory;
    if vm0.threads@.len() > 0 {
        let (thread1, step) = choose|thread1: Thread, step: Result<Step, VmError>| #[trigger]
            thread_step_post(before, after, vm0.threads@.last(), thread1, step) && routed(
                vm0.threads@,
                thread1,
                vm1.threads@,
                step,
                r,
            );
        lemma_thread_step_keeps(before, after, vm0.threads@.last(), thread1, step);
    } else if vm0.agenda@.len() > 0 {
        match vm0.agenda@.last() {
            Task::Class(name) => {
                let er = choose|er: Result<Ensured, VmError>| #[trigger]
                    ensure_class_post(before, after, name@, er) && match er {
                        Ok(Ensured::Ready) => r == Ok::<Signal, VmError>(Signal::Continue)
                            && vm1.agenda@ == vm0.agenda@.drop_last() && vm1.threads@.len() == 0,
                        Ok(Ensured::Again) => r == Ok::<Signal, VmError>(Signal::Continue)
                            && vm1.agenda == vm0.agenda && vm1.threads@.len() == 0,
                        Ok(Ensured::Load(wanted)) => r == Ok::<Signal, VmError>(
                            Signal::NeedClass(wanted),
                        ) && vm1.agenda == vm0.agenda && vm1.threads@.len() == 0,
                        Ok(Ensured::Run(frame)) => r == Ok::<Signal, VmError>(Signal::Continue)
                            && vm1.agenda == vm0.agenda && vm1.threads@.len() == 1 && is_thread_of(
                            vm1.threads@[0],
                            frame,
                        ),
                        Err(e) => r == Err::<Signal, VmError>(e) && vm1.agenda == vm0.agenda
                            && vm1.threads@.len() == 0,
                    };
                lemma_ensure_keeps(before, after, name@, er);
            },
            Task::Array(name) => {
                let x = before.method_area.classes@;
                let y = after.method_area.classes@;
                if y != x {
                    assert forall|j: int| 0 <= j < x.len() implies (#[trigger] y[j]) == x[j] by {}
                    lemma_keeps_by_records(before, after);
                }
            },
            Task::Call { .. } => {},
        }
    }
}

/// Linking a class that is not linked leaves it linked: with a resolved
/// pool as long as its raw pool, with static storage that is as wide as
/// its static-field layout and all zero, and with a mirror of its own, a
/// new object that is a blank instance of `java/lang/Class`. Its
/// superclass is linked as well.
pub proof fn law_link_reaches_the_class_and_its_superclass(
    before: GlobalMemory,
    after: GlobalMemory,
    class: usize,
)
    requires
        before.wf(),
        is_unlinked(before.method_area.classes@, class as int),
        link_class_post(before, after, class, Ok(())),
    ensures
        ({
            let record = after.method_area.classes@[class as int];
            let storage = record->Instance_0.static_field_values@;
            let mirror = record->Instance_0.java_clone->0 as int;
            &&& record is Instance
            &&& record->Instance_0.constant_pool is Some
            &&& record->Instance_0.constant_pool->0@.len()
                == record->Instance_0.parsed_class.raw_pool@.len()
            &&& storage.len() == total_width(record->Instance_0.static_fields@)
            &&& forall|i: int| 0 <= i < storage.len() ==> storage[i] == 0
            &&& record->Instance_0.java_clone is Some
            &&& before.heap.data@.len() <= mirror < after.heap.data@.len()
            &&& after.heap.data@[mirror]@ == before.blank_mirror()
            &&& match before.method_area.classes@[class as int]->Instance_0.super_index {
                Some(j) => after.method_area.classes@[j as int] is Instance
                    && after.method_area.classes@[j as int]->Instance_0.constant_pool is Some,
                None => true,
            }
        }),
{
    let classes = before.method_area.classes@;
    let linked = after.method_area.classes@;
    let chain = unlinked_chain(classes, class as int);
    let objects = before.heap.data@.len() as int;
    lemma_unlinked_chain(classes, class as int);
    assert(before.method_area.classes.len() == classes.len());
    assert(chain[0] == class);
    assert(is_linked_record(classes[chain[0]], linked[chain[0]], (objects + chain.len() - 1) as u32));
    assert(after.heap.data@[objects + (chain.len() - 1)]@ == before.blank_mirror());
    match classes[class as int]->Instance_0.super_index {
        Some(j) => {
            assert(hierarchy_ok(classes, class as int));
            if is_unlinked(classes, j as int) {
                lemma_unlinked_chain(classes, j as int);
                assert(chain =~= seq![class as int] + unlinked_chain(classes, j as int));
                assert(chain[1] == j);
                assert(is_linked_record(
                    classes[chain[1]],
                    linked[chain[1]],
                    (objects + chain.len() - 2) as u32,
                ));
            } else {
                assert(chain =~= seq![class as int]);
                assert(!chain.contains(j as int));
            }
        },
        None => {},
    }
}

/// A load, a store or an increment that goes through names a local
/// variable of its frame, and one of category 2 names two: the index, and
/// for a `long` or a `double` the index after it, is below the number of
/// local variables. The frame has as many local variables afterwards.
pub proof fn law_local_access_stays_inside(
    instr: Instr,
    length: int,
    s: FrameState,
    max_stack: int,
)
    requires
        local_effect(instr, length, s, max_stack) is Ok,
    ensures
        match instr {
            Instr::Load1(i) | Instr::Store1(i) | Instr::Increment(i, _) => i < s.locals.len(),
            Instr::Load2(i) | Instr::Store2(i) => i + 1 < s.locals.len(),
            _ => true,
        },
        match local_effect(instr, length, s, max_stack)->Ok_0 {
            Effect::Next(t) => t.locals.len() == s.locals.len(),
            _ => true,
        },
{
}

/// The frame of an invoked method takes the cells that the invocation
/// pops as its first local variables, in their order, and has as many
/// local variables as the method declares, which are at least as many as
/// those cells: an invocation that would pass more cells than the method
/// has local variables fails with `BadLocal`.
pub proof fn law_arguments_become_locals(
    classes: Seq<Klass>,
    thread0: Thread,
    thread1: Thread,
    start: Seq<char>,
    name: Seq<char>,
    descriptor: MethodDescriptorView,
    popped: int,
    r: Result<Step, VmError>,
)
    requires
        thread0.jvm_stack@.len() >= 1,
        0 <= popped <= thread0.jvm_stack@.last().operand_stack@.len(),
        entered_post(classes, thread0, thread1, start, name, descriptor, popped, r),
        frame_plan(classes, start, name, descriptor) is Ok,
    ensures
        ({
            let (c, m) = frame_plan(classes, start, name, descriptor)->Ok_0;
            let stack = thread0.jvm_stack@.last().operand_stack@;
            if invoked_locals(classes, c, m) < popped {
                r == Err::<Step, VmError>(VmError::BadLocal) && thread1 == thread0
            } else {
                let locals = thread1.jvm_stack@.last().local_variables@;
                &&& r == Ok::<Step, VmError>(Step::Next)
                &&& locals.len() == invoked_locals(classes, c, m)
                &&& forall|i: int|
                    0 <= i < popped ==> locals[i] == stack[stack.len() - popped + i]
            }
        }),
{
    let (c, m) = frame_plan(classes, start, name, descriptor)->Ok_0;
    let stack = thread0.jvm_stack@.last().operand_stack@;
    if invoked_locals(classes, c, m) >= popped {
        let locals = thread1.jvm_stack@.last().local_variables@;
        let arguments = stack.subrange(stack.len() - popped, stack.len() as int);
        assert forall|i: int| 0 <= i < popped implies locals[i] == stack[stack.len() - popped
            + i] by {
            assert(locals.subrange(0, arguments.len() as int)[i] == arguments[i]);
        }
    }
}

/// An instruction on a `long` takes each operand as the two cells on the
/// stack that hold it, the high word below the low word, and leaves a
/// `long` result as two such cells: so for negation, for a shift, whose
/// count is one cell, for the comparison, whose result is one cell, and
/// for the conversions from and to `int`.
pub proof fn law_long_operands_are_two_cells(op: Shift, a: u64, b: u64, count: u32, x: u32)
    ensures
        operand_count(Instr::LongNegate) == 2,
        results(Instr::LongNegate, long_cells(a)) == Some(
            long_cells(bits_of(-long_of(a))),
        ),
        operand_count(Instr::LongShift(op)) == 3,
        results(Instr::LongShift(op), long_cells(a).push(count)) == Some(
            long_cells(long_shift(op, a, count)),
        ),
        operand_count(Instr::LongOrder) == 4,
        results(Instr::LongOrder, long_cells(a) + long_cells(b)) == Some(seq![long_order(a, b)]),
        operand_count(Instr::Truncate) == 2,
        results(Instr::Truncate, long_cells(a)) == Some(seq![low_word(a)]),
        operand_count(Instr::Widen) == 1,
        results(Instr::Widen, seq![x]) == Some(long_cells(widen(x))),
{
    assert(join_words(high_word(a), low_word(a)) == a);
    assert(join_words(high_word(b), low_word(b)) == b);
    let o = long_cells(a) + long_cells(b);
    assert(o[0] == high_word(a) && o[1] == low_word(a) && o[2] == high_word(b) && o[3] == low_word(
        b,
    ));
    let p = long_cells(a).push(count);
    assert(p[0] == high_word(a) && p[1] == low_word(a) && p[2] == count);
}

/// A `long` operation on a stack that ends with the cells of two `long`
/// values replaces those four cells by the two cells of the result, and
/// leaves what is below them.
pub proof fn law_long_operation_on_the_stack(
    op: Binary,
    below: Seq<u32>,
    a: u64,
    b: u64,
    s: FrameState,
    max_stack: int,
    length: int,
)
    requires
        s.stack == below + long_cells(a) + long_cells(b),
        s.stack.len() <= max_stack,
        long_binary(op, a, b) is Some,
    ensures
        stack_effect(Instr::LongBinary(op), length, s, max_stack) == Ok::<Effect, VmError>(
            Effect::Next(
                FrameState {
                    locals: s.locals,
                    stack: below + long_cells(long_binary(op, a, b)->0),
                    pc: s.pc + length,
                },
            ),
        ),
{
    let n = s.stack.len() as int;
    let o = s.stack.subrange(n - 4, n);
    assert(o =~= long_cells(a) + long_cells(b));
    assert(s.stack.subrange(0, n - 4) =~= below);
    law_long_takes_two_cells(op, a, b);
}

/// A load of category 2 pushes the two local variables that hold the
/// value, the first below the second, and a store of category 2 pops two
/// cells into two local variables in the same order.
pub proof fn law_long_locals_are_two_cells(index: u16, s: FrameState, max_stack: int, length: int)
    requires
        index + 1 < s.locals.len(),
    ensures
        s.stack.len() + 2 <= max_stack ==> local_effect(Instr::Load2(index), length, s, max_stack)
            == Ok::<Effect, VmError>(
            Effect::Next(
                FrameState {
                    locals: s.locals,
                    stack: s.stack + seq![s.locals[index as int], s.locals[index + 1]],
                    pc: s.pc + length,
                },
            ),
        ),
        s.stack.len() >= 2 ==> local_effect(Instr::Store2(index), length, s, max_stack)
            == Ok::<Effect, VmError>(
            Effect::Next(
                FrameState {
                    locals: s.locals.update(index as int, s.stack[s.stack.len() - 2]).update(
                        index + 1,
                        s.stack[s.stack.len() - 1],
                    ),
                    stack: s.stack.subrange(0, s.stack.len() - 2),
                    pc: s.pc + length,
                },
            ),
        ),
{
    assert(s.stack.push(s.locals[index as int]).push(s.locals[index + 1]) =~= s.stack + seq![
        s.locals[index as int],
        s.locals[index + 1],
    ]);
}

/// The state of a frame after a stack-only instruction, where it goes
/// through.
pub open spec fn after_stack(instr: Instr, s: FrameState, max_stack: int) -> FrameState {
    match stack_effect(instr, 1, s, max_stack) {
        Ok(Effect::Next(t)) => t,
        _ => s,
    }
}

/// The code `i2l; l2i; i2b` on a stack that ends with an `int` leaves the
/// stack as deep as it was, with the `int` cast to a byte in the place of
/// the `int`: its low 8 bits, with the sign extended. The stack needs room
/// for the second cell of the `long` in between.
pub proof fn law_widen_truncate_narrow_on_the_stack(
    code: Seq<u8>,
    s: FrameState,
    max_stack: int,
)
    requires
        s.stack.len() >= 1,
        s.stack.len() + 1 <= max_stack,
        0 <= s.pc,
        s.pc + 3 <= code.len(),
        code[s.pc] == 0x85,
        code[s.pc + 1] == 0x88,
        code[s.pc + 2] == 0x91,
    ensures
        spec_decode(code, s.pc) == Ok::<(Instr, int), VmError>((Instr::Widen, 1)),
        spec_decode(code, s.pc + 1) == Ok::<(Instr, int), VmError>((Instr::Truncate, 1)),
        spec_decode(code, s.pc + 2) == Ok::<(Instr, int), VmError>(
            (Instr::Narrow(Narrow::Byte), 1),
        ),
        ({
            let first = after_stack(Instr::Widen, s, max_stack);
            let second = after_stack(Instr::Truncate, first, max_stack);
            let third = after_stack(Instr::Narrow(Narrow::Byte), second, max_stack);
            &&& stack_effect(Instr::Widen, 1, s, max_stack) is Ok
            &&& stack_effect(Instr::Truncate, 1, first, max_stack) is Ok
            &&& stack_effect(Instr::Narrow(Narrow::Byte), 1, second, max_stack) is Ok
            &&& third == FrameState {
                locals: s.locals,
                stack: s.stack.drop_last().push(cell_of(byte_value(s.stack.last()))),
                pc: s.pc + 3,
            }
        }),
{
    let x = s.stack.last();
    let n = s.stack.len() as int;
    let kept = s.stack.drop_last();
    let first = after_stack(Instr::Widen, s, max_stack);
    assert(s.stack.subrange(0, n - 1) =~= kept);
    assert(s.stack.subrange(n - 1, n) =~= seq![x]);
    assert(first.stack =~= kept + long_cells(widen(x)));
    let second = after_stack(Instr::Truncate, first, max_stack);
    assert(first.stack.subrange(0, n - 1) =~= kept);
    assert(first.stack.subrange(n - 1, n + 1) =~= long_cells(widen(x)));
    assert(second.stack =~= kept + seq![low_word(widen(x))]);
    let third = after_stack(Instr::Narrow(Narrow::Byte), second, max_stack);
    assert(second.stack.subrange(0, n - 1) =~= kept);
    assert(second.stack.subrange(n - 1, n) =~= seq![low_word(widen(x))]);
    law_widen_then_narrow(x);
    assert(third.stack =~= kept.push(cell_of(byte_value(x))));
}

/// `Double.longBitsToDouble` and `Double.doubleToRawLongBits` hand the two
/// cells of their argument to the invoker as they are: the frame of the
/// native method is dropped, the two cells are pushed onto the operand
/// stack of the invoker, whose instruction counter moves past the
/// invocation, and the memory is unchanged.
pub proof fn law_double_bits_reach_the_invoker(
    before: GlobalMemory,
    after: GlobalMemory,
    thread0: Thread,
    thread1: Thread,
    r: Result<Step, VmError>,
)
    requires
        native_post(before, after, thread0, thread1, r),
        thread0.jvm_stack@.len() >= 2,
        thread0.jvm_stack@.last().class_name@ == "java/lang/Double"@,
        thread0.jvm_stack@.last().method_name@ == "longBitsToDouble"@
            || thread0.jvm_stack@.last().method_name@ == "doubleToRawLongBits"@,
        thread0.jvm_stack@.last().local_variables@.len() >= 2,
        resume_length(thread0.jvm_stack@[thread0.jvm_stack@.len() - 2]) is Some,
        thread0.jvm_stack@[thread0.jvm_stack@.len() - 2].operand_stack@.len() + 2
            <= thread0.jvm_stack@[thread0.jvm_stack@.len() - 2].max_stack,
    ensures
        r == Ok::<Step, VmError>(Step::Next),
        after == before,
        thread1.jvm_stack@.len() == thread0.jvm_stack@.len() - 1,
        thread1.jvm_stack@.drop_last() == thread0.jvm_stack@.subrange(
            0,
            thread0.jvm_stack@.len() - 2,
        ),
        ({
            let invoker = thread0.jvm_stack@[thread0.jvm_stack@.len() - 2];
            let locals = thread0.jvm_stack@.last().local_variables@;
            &&& thread1.jvm_stack@.last().operand_stack@ == invoker.operand_stack@ + seq![
                locals[0],
                locals[1],
            ]
            &&& thread1.jvm_stack@.last().local_variables@ == invoker.local_variables@
            &&& thread1.jvm_stack@.last().instruction_counter == invoker.instruction_counter
                + resume_length(invoker)->0
        }),
{
    let invoker = thread0.jvm_stack@[thread0.jvm_stack@.len() - 2];
    let locals = thread0.jvm_stack@.last().local_variables@;
    law_double_bits_round_trip(locals);
    assert(locals.subrange(0, 2) =~= seq![locals[0], locals[1]]);
    assert(invoker@.stack.subrange(0, invoker@.stack.len() - 0) =~= invoker.operand_stack@);
}

/// `invokevirtual` and `invokeinterface` look the method up from the class
/// of the object that the receiver refers to, whatever class the method
/// reference names, and the receiver is the first local variable of the
/// frame that is pushed for the method.
pub proof fn law_virtual_invocation_starts_at_the_receiver(
    before: GlobalMemory,
    after: GlobalMemory,
    thread0: Thread,
    thread1: Thread,
    kind: InvokeKind,
    index: u16,
    r: Result<Step, VmError>,
    class: Seq<char>,
)
    requires
        thread0.jvm_stack@.len() >= 1,
        invoke_post(before, after, thread0, thread1, kind, index, r),
        kind == InvokeKind::Virtual || kind == InvokeKind::Interface,
        ({
            let frame0 = thread0.jvm_stack@.last();
            let stack = frame0.operand_stack@;
            let key = method_key(
                before.method_area.spec_constant(frame0.constant_pool as int, index as int),
            );
            let descriptor = spec_method_descriptor(key->0.descriptor);
            let popped = popped_cells(kind, descriptor->0) as int;
            let receiver = stack[stack.len() - popped];
            &&& key is Some
            &&& descriptor is Some
            &&& stack.len() >= popped
            &&& before.method_area.is_initialized(key->0.class)
            &&& 0 < receiver < before.heap.objects().len()
            &&& class_of_object(before.heap.objects()[receiver as int].descriptor) == Some(class)
            &&& frame_plan(before.method_area.classes@, class, key->0.name, descriptor->0) is Ok
            &&& invoked_locals(
                before.method_area.classes@,
                frame_plan(before.method_area.classes@, class, key->0.name, descriptor->0)->Ok_0.0,
                frame_plan(before.method_area.classes@, class, key->0.name, descriptor->0)->Ok_0.1,
            ) >= popped
        }),
    ensures
        ({
            let frame0 = thread0.jvm_stack@.last();
            let stack = frame0.operand_stack@;
            let key = method_key(
                before.method_area.spec_constant(frame0.constant_pool as int, index as int),
            )->0;
            let descriptor = spec_method_descriptor(key.descriptor)->0;
            let popped = popped_cells(kind, descriptor) as int;
            let (c, m) = frame_plan(before.method_area.classes@, class, key.name, descriptor)->Ok_0;
            &&& lookup_start(kind, key, before.heap.objects(), stack[stack.len() - popped])
                == class
            &&& r == Ok::<Step, VmError>(Step::Next)
            &&& thread1.jvm_stack@.len() == thread0.jvm_stack@.len() + 1
            &&& is_entered_frame(
                before.method_area.classes@,
                c,
                m,
                thread1.jvm_stack@.last(),
                stack.subrange(stack.len() - popped, stack.len() as int),
            )
            &&& thread1.jvm_stack@.last().local_variables@[0] == stack[stack.len() - popped]
        }),
{
    let frame0 = thread0.jvm_stack@.last();
    let stack = frame0.operand_stack@;
    let key = method_key(
        before.method_area.spec_constant(frame0.constant_pool as int, index as int),
    )->0;
    let descriptor = spec_method_descriptor(key.descriptor)->0;
    let popped = popped_cells(kind, descriptor) as int;
    let arguments = stack.subrange(stack.len() - popped, stack.len() as int);
    let locals = thread1.jvm_stack@.last().local_variables@;
    assert(locals.subrange(0, arguments.len() as int)[0] == arguments[0]);
}

/// An exception that an instruction raises and its own frame catches
/// takes the place of the operands of the instruction: the handler finds
/// the operand stack as it was below them, with the reference to the new
/// exception object on top, and the local variables as they were.
pub proof fn law_caught_exception_replaces_the_operands(
    before: GlobalMemory,
    after: GlobalMemory,
    thread0: Thread,
    thread1: Thread,
    kind: Throwable,
    r: Result<Step, VmError>,
)
    requires
        thread0.jvm_stack@.len() >= 1,
        raise_post(before, after, thread0, thread1, kind, r),
        before.method_area.is_initialized(throwable_class(kind)),
        r is Ok,
        !thread1.is_throwing,
    ensures
        ({
            let frame0 = thread0.jvm_stack@.last();
            let frame1 = thread1.jvm_stack@.last();
            let pops = raised_cells(before.method_area.classes@, frame0) as int;
            let depth = frame0.operand_stack@.len() as int;
            &&& pops <= depth
            &&& thread1.jvm_stack@.len() == thread0.jvm_stack@.len()
            &&& thread1.jvm_stack@.drop_last() == thread0.jvm_stack@.drop_last()
            &&& frame1.operand_stack@ == frame0.operand_stack@.subrange(0, depth - pops).push(
                before.heap.data@.len() as u32,
            )
            &&& frame1.local_variables@ == frame0.local_variables@
            &&& frame1.same_method(&frame0)
        }),
{
    let classes = before.method_area.classes@;
    let frame0 = thread0.jvm_stack@.last();
    let pops = raised_cells(classes, frame0) as int;
    let depth = frame0.operand_stack@.len() as int;
    let i = index_of(classes, throwable_class(kind))->0;
    let reference = before.heap.data@.len() as u32;
    let (mid, popped) = choose|mid: GlobalMemory, popped: Thread|
        {
            &&& mid.method_area == before.method_area
            &&& mid.loading == before.loading
            &&& heap_grew(before.heap, mid.heap, blank_instance(classes, i))
            &&& operands_dropped(thread0, popped, pops)
            &&& #[trigger] handle_post(mid, after, popped, thread1, reference, r)
        };
    let kept = frame0.operand_stack@.subrange(0, depth - pops);
    assert(popped.jvm_stack@.last()@.stack =~= kept);
    assert(kept.subrange(0, kept.len() - 0) + seq![reference] =~= kept.push(reference));
}

/// What running a stack-only instruction does to its frame and to the
/// memory.
proof fn lemma_stack_only_in_frame(
    instr: Instr,
    length: int,
    before: GlobalMemory,
    after: GlobalMemory,
    thread0: Thread,
    thread1: Thread,
    r: Result<Step, VmError>,
)
    requires
        is_stack_only(instr),
        execute_post(instr, length, before, after, thread0, thread1, r),
    ensures
        after == before,
        top_changed(thread0, thread1),
        step_follows(
            thread0.jvm_stack@.last(),
            thread1.jvm_stack@.last(),
            r,
            stack_effect(
                instr,
                length,
                thread0.jvm_stack@.last()@,
                thread0.jvm_stack@.last().max_stack as int,
            ),
        ),
{
    let frame0 = thread0.jvm_stack@.last();
    let frame1 = thread1.jvm_stack@.last();
    assert(frame_post(instr, length, before, after, frame0, frame1, r));
}

/// The effect of a stack-only instruction on a stack that ends with its
/// operands.
proof fn lemma_stack_effect_on_operands(
    instr: Instr,
    length: int,
    s: FrameState,
    max_stack: int,
    below: Seq<u32>,
    operands: Seq<u32>,
)
    requires
        s.stack == below + operands,
        operands.len() == operand_count(instr),
        results(instr, operands) is Some,
        below.len() + results(instr, operands)->0.len() <= max_stack,
    ensures
        stack_effect(instr, length, s, max_stack) == Ok::<Effect, VmError>(
            Effect::Next(
                FrameState {
                    locals: s.locals,
                    stack: below + results(instr, operands)->0,
                    pc: s.pc + length,
                },
            ),
        ),
{
    let n = s.stack.len() as int;
    let count = operand_count(instr) as int;
    assert(s.stack.subrange(0, n - count) =~= below);
    assert(s.stack.subrange(n - count, n) =~= operands);
}

/// A step of a thread whose running frame stands at a stack-only
/// instruction takes the operands of the instruction, the topmost cells of
/// the operand stack, and puts its results in their place: what is below
/// them stays, the local variables stay, the instruction counter moves on
/// by the length of the instruction, and nothing else changes, in the
/// thread or in the memory.
pub proof fn law_step_of_a_stack_instruction(
    before: GlobalMemory,
    after: GlobalMemory,
    thread0: Thread,
    thread1: Thread,
    r: Result<Step, VmError>,
    instr: Instr,
    length: int,
    below: Seq<u32>,
    operands: Seq<u32>,
)
    requires
        thread0.jvm_stack@.len() >= 1,
        !thread0.is_throwing,
        !thread0.jvm_stack@.last().running_native,
        spec_decode(
            thread0.jvm_stack@.last().code(),
            thread0.jvm_stack@.last().instruction_counter as int,
        ) == Ok::<(Instr, int), VmError>((instr, length)),
        is_stack_only(instr),
        thread0.jvm_stack@.last().operand_stack@ == below + operands,
        operands.len() == operand_count(instr),
        results(instr, operands) is Some,
        below.len() + results(instr, operands)->0.len() <= thread0.jvm_stack@.last().max_stack,
        thread_step_post(before, after, thread0, thread1, r),
    ensures
        r == Ok::<Step, VmError>(Step::Next),
        after == before,
        !thread1.is_throwing,
        thread1.jvm_stack@.len() == thread0.jvm_stack@.len(),
        thread1.jvm_stack@.drop_last() == thread0.jvm_stack@.drop_last(),
        thread1.jvm_stack@.last().same_method(&thread0.jvm_stack@.last()),
        thread1.jvm_stack@.last().operand_stack@ == below + results(instr, operands)->0,
        thread1.jvm_stack@.last().local_variables@ == thread0.jvm_stack@.last().local_variables@,
        thread1.jvm_stack@.last().instruction_counter
            == thread0.jvm_stack@.last().instruction_counter + length,
{
    let frame0 = thread0.jvm_stack@.last();
    let (mid, between, r0) = choose|mid: GlobalMemory, between: Thread, r0: Result<Step, VmError>|
        #[trigger] ran(before, mid, thread0, between, r0) && settled(
            mid,
            after,
            between,
            thread1,
            r0,
            r,
        );
    assert(execute_post(instr, length, before, mid, thread0, between, r0));
    lemma_stack_only_in_frame(instr, length, before, mid, thread0, between, r0);
    lemma_stack_effect_on_operands(
        instr,
        length,
        frame0@,
        frame0.max_stack as int,
        below,
        operands,
    );
}

/// Three steps of a thread whose running frame stands at the code
/// `i2l; l2i; i2b`, with an `int` on top of its operand stack and room for
/// one cell more, leave the `int` cast to a byte in the place of the `int`:
/// its low 8 bits with the sign extended. The stack is as deep as it was,
/// and nothing else has changed but the instruction counter.
pub proof fn law_steps_of_widen_truncate_narrow(
    memory: Seq<GlobalMemory>,
    thread: Seq<Thread>,
    r: Seq<Result<Step, VmError>>,
)
    requires
        memory.len() == 4,
        thread.len() == 4,
        r.len() == 3,
        forall|k: int|
            0 <= k < 3 ==> #[trigger] thread_step_post(
                memory[k],
                memory[k + 1],
                thread[k],
                thread[k + 1],
                r[k],
            ),
        thread[0].jvm_stack@.len() >= 1,
        !thread[0].is_throwing,
        !thread[0].jvm_stack@.last().running_native,
        thread[0].jvm_stack@.last().operand_stack@.len() >= 1,
        thread[0].jvm_stack@.last().operand_stack@.len() + 1 <= thread[0].jvm_stack@.last().max_stack,
        ({
            let frame = thread[0].jvm_stack@.last();
            let pc = frame.instruction_counter as int;
            &&& pc + 3 <= frame.code().len()
            &&& frame.code()[pc] == 0x85
            &&& frame.code()[pc + 1] == 0x88
            &&& frame.code()[pc + 2] == 0x91
        }),
    ensures
        memory[3] == memory[0],
        r[2] == Ok::<Step, VmError>(Step::Next),
        thread[3].jvm_stack@.len() == thread[0].jvm_stack@.len(),
        thread[3].jvm_stack@.drop_last() == thread[0].jvm_stack@.drop_last(),
        thread[3].jvm_stack@.last().local_variables@ == thread[0].jvm_stack@.last().local_variables@,
        thread[3].jvm_stack@.last().instruction_counter
            == thread[0].jvm_stack@.last().instruction_counter + 3,
        thread[3].jvm_stack@.last().operand_stack@ == thread[0].jvm_stack@.last().operand_stack@.drop_last().push(
            cell_of(byte_value(thread[0].jvm_stack@.last().operand_stack@.last())),
        ),
{
    let frame = thread[0].jvm_stack@.last();
    let x = frame.operand_stack@.last();
    let kept = frame.operand_stack@.drop_last();
    assert(frame.operand_stack@ =~= kept + seq![x]);
    assert(thread_step_post(memory[0], memory[1], thread[0], thread[1], r[0]));
    law_step_of_a_stack_instruction(
        memory[0],
        memory[1],
        thread[0],
        thread[1],
        r[0],
        Instr::Widen,
        1,
        kept,
        seq![x],
    );
    assert(thread_step_post(memory[1], memory[2], thread[1], thread[2], r[1]));
    law_step_of_a_stack_instruction(
        memory[1],
        memory[2],
        thread[1],
        thread[2],
        r[1],
        Instr::Truncate,
        1,
        kept,
        long_cells(widen(x)),
    );
    assert(thread_step_post(memory[2], memory[3], thread[2], thread[3], r[2]));
    law_widen_then_narrow(x);
    law_step_of_a_stack_instruction(
        memory[2],
        memory[3],
        thread[2],
        thread[3],
        r[2],
        Instr::Narrow(Narrow::Byte),
        1,
        kept,
        seq![low_word(widen(x))],
    );
    assert(kept + seq![cell_of(byte_value(x))] =~= kept.push(cell_of(byte_value(x))));
}

/// A step of a thread whose running frame stands at a return hands the
/// topmost cells of the operand stack of the frame, as many as the return
/// takes, to the invoker: the frame is dropped, the cells are pushed onto
/// the operand stack of the invoker in their order, and the instruction
/// counter of the invoker moves past its invocation. The memory is
/// unchanged.
pub proof fn law_return_reaches_the_invoker(
    before: GlobalMemory,
    after: GlobalMemory,
    thread0: Thread,
    thread1: Thread,
    r: Result<Step, VmError>,
    cells: u8,
    length: int,
)
    requires
        thread0.jvm_stack@.len() >= 2,
        !thread0.is_throwing,
        !thread0.jvm_stack@.last().running_native,
        spec_decode(
            thread0.jvm_stack@.last().code(),
            thread0.jvm_stack@.last().instruction_counter as int,
        ) == Ok::<(Instr, int), VmError>((Instr::Return(cells), length)),
        thread0.jvm_stack@.last().operand_stack@.len() >= cells,
        resume_length(thread0.jvm_stack@[thread0.jvm_stack@.len() - 2]) is Some,
        thread0.jvm_stack@[thread0.jvm_stack@.len() - 2].operand_stack@.len() + cells
            <= thread0.jvm_stack@[thread0.jvm_stack@.len() - 2].max_stack,
        thread_step_post(before, after, thread0, thread1, r),
    ensures
        r == Ok::<Step, VmError>(Step::Next),
        after == before,
        thread1.jvm_stack@.len() == thread0.jvm_stack@.len() - 1,
        thread1.jvm_stack@.drop_last() == thread0.jvm_stack@.subrange(
            0,
            thread0.jvm_stack@.len() - 2,
        ),
        ({
            let invoker = thread0.jvm_stack@[thread0.jvm_stack@.len() - 2];
            let stack = thread0.jvm_stack@.last().operand_stack@;
            &&& thread1.jvm_stack@.last().operand_stack@ == invoker.operand_stack@
                + stack.subrange(stack.len() - cells, stack.len() as int)
            &&& thread1.jvm_stack@.last().local_variables@ == invoker.local_variables@
            &&& thread1.jvm_stack@.last().instruction_counter == invoker.instruction_counter
                + resume_length(invoker)->0
            &&& thread1.jvm_stack@.last().same_method(&invoker)
        }),
{
    let invoker = thread0.jvm_stack@[thread0.jvm_stack@.len() - 2];
    let (mid, between, r0) = choose|mid: GlobalMemory, between: Thread, r0: Result<Step, VmError>|
        #[trigger] ran(before, mid, thread0, between, r0) && settled(
            mid,
            after,
            between,
            thread1,
            r0,
            r,
        );
    assert(execute_post(Instr::Return(cells), length, before, mid, thread0, between, r0));
    assert(invoker@.stack.subrange(0, invoker@.stack.len() - 0) =~= invoker.operand_stack@);
}

/// Where no entry of a table catches, no handler is found.
proof fn lemma_none_catches(
    area: MethodArea,
    class: int,
    table: Seq<ExceptionTableItem>,
    pc: int,
    thrown: int,
)
    requires
        forall|i: int|
            0 <= i < table.len() ==> #[trigger] catches(area, class, table[i], pc, thrown) == Ok::<
                bool,
                VmError,
            >(false),
    ensures
        handler_for(area, class, table, pc, thrown) == Ok::<Option<int>, VmError>(None),
    decreases table.len(),
{
    if table.len() > 0 {
        assert forall|i: int| 0 <= i < table.drop_last().len() implies #[trigger] catches(
            area,
            class,
            table.drop_last()[i],
            pc,
            thrown,
        ) == Ok::<bool, VmError>(false) by {
            assert(table.drop_last()[i] == table[i]);
        }
        lemma_none_catches(area, class, table.drop_last(), pc, thrown);
        assert(catches(area, class, table[table.len() - 1], pc, thrown) == Ok::<bool, VmError>(
            false,
        ));
    }
}

/// The handler of an exception is that of the first entry of the table, in
/// the order of the table, that catches it.
pub proof fn law_first_catching_entry_decides(
    area: MethodArea,
    class: int,
    table: Seq<ExceptionTableItem>,
    pc: int,
    thrown: int,
    k: int,
)
    requires
        0 <= k < table.len(),
        forall|i: int|
            0 <= i < k ==> #[trigger] catches(area, class, table[i], pc, thrown) == Ok::<
                bool,
                VmError,
            >(false),
        catches(area, class, table[k], pc, thrown) == Ok::<bool, VmError>(true),
    ensures
        handler_for(area, class, table, pc, thrown) == Ok::<Option<int>, VmError>(
            Some(table[k].handler_pc as int),
        ),
    decreases table.len(),
{
    let front = table.drop_last();
    if k == table.len() - 1 {
        assert forall|i: int| 0 <= i < front.len() implies #[trigger] catches(
            area,
            class,
            front[i],
            pc,
            thrown,
        ) == Ok::<bool, VmError>(false) by {
            assert(front[i] == table[i]);
        }
        lemma_none_catches(area, class, front, pc, thrown);
    } else {
        assert forall|i: int| 0 <= i < k implies #[trigger] catches(
            area,
            class,
            front[i],
            pc,
            thrown,
        ) == Ok::<bool, VmError>(false) by {
            assert(front[i] == table[i]);
        }
        assert(front[k] == table[k]);
        law_first_catching_entry_decides(area, class, front, pc, thrown, k);
    }
}

/// An exception that an entry of the exception table of the running frame
/// catches, no entry before it catching, is handled in that frame: no
/// frame is dropped, the instruction counter stands at the handler of the
/// entry, the reference is pushed onto the operand stack as it stands, the
/// local variables stay, and no exception is on its way any more. The
/// operand stack must have room for the reference.
pub proof fn law_covering_entry_catches(
    before: GlobalMemory,
    after: GlobalMemory,
    thread0: Thread,
    thread1: Thread,
    objectref: u32,
    r: Result<Step, VmError>,
    k: int,
)
    requires
        thread0.jvm_stack@.len() >= 1,
        handle_post(before, after, thread0, thread1, objectref, r),
        thrown_class(before, objectref) is Ok,
        ({
            let frame0 = thread0.jvm_stack@.last();
            let table = table_of(frame0);
            let caught = |item: ExceptionTableItem|
                catches(
                    before.method_area,
                    frame0.constant_pool as int,
                    item,
                    frame0.instruction_counter as int,
                    thrown_class(before, objectref)->Ok_0,
                );
            &&& 0 <= k < table.len()
            &&& forall|i: int| 0 <= i < k ==> caught(#[trigger] table[i]) == Ok::<bool, VmError>(false)
            &&& caught(table[k]) == Ok::<bool, VmError>(true)
            &&& frame0.operand_stack@.len() < frame0.max_stack
        }),
    ensures
        r == Ok::<Step, VmError>(Step::Next),
        !thread1.is_throwing,
        thread1.jvm_stack@.len() == thread0.jvm_stack@.len(),
        thread1.jvm_stack@.drop_last() == thread0.jvm_stack@.drop_last(),
        ({
            let frame0 = thread0.jvm_stack@.last();
            let frame1 = thread1.jvm_stack@.last();
            &&& frame1.instruction_counter == table_of(frame0)[k].handler_pc
            &&& frame1.operand_stack@ == frame0.operand_stack@.push(objectref)
            &&& frame1.local_variables@ == frame0.local_variables@
            &&& frame1.same_method(&frame0)
        }),
{
    let frame0 = thread0.jvm_stack@.last();
    let table = table_of(frame0);
    let class = frame0.constant_pool as int;
    let pc = frame0.instruction_counter as int;
    let thrown = thrown_class(before, objectref)->Ok_0;
    assert forall|i: int| 0 <= i < k implies #[trigger] catches(
        before.method_area,
        class,
        table[i],
        pc,
        thrown,
    ) == Ok::<bool, VmError>(false) by {
        let item = table[i];
    }
    law_first_catching_entry_decides(before.method_area, class, table, pc, thrown, k);
    assert(frame0@.stack.subrange(0, frame0@.stack.len() - 0) + seq![objectref]
        =~= frame0.operand_stack@.push(objectref));
}

/// What `putstatic` has stored in a static field, `getstatic` of the same
/// field pushes: the cells that were popped, in their order. The two
/// instructions may stand in different frames, of different classes.
pub proof fn law_static_read_gives_what_was_stored(
    first: GlobalMemory,
    second: GlobalMemory,
    third: GlobalMemory,
    writer0: Frame,
    writer1: Frame,
    reader0: Frame,
    reader1: Frame,
    put: u16,
    get: u16,
    length: int,
    r: Result<Step, VmError>,
)
    requires
        first.wf(),
        put_static_post(first, second, writer0, writer1, put, length, Ok(Step::Next)),
        get_static_post(second, third, reader0, reader1, get, length, r),
        field_key(second.method_area.spec_constant(reader0.constant_pool as int, get as int))
            == field_key(first.method_area.spec_constant(writer0.constant_pool as int, put as int)),
        ({
            let key = field_key(
                first.method_area.spec_constant(writer0.constant_pool as int, put as int),
            );
            reader0.operand_stack@.len() + value_cells(key->0.descriptor)->0 <= reader0.max_stack
        }),
    ensures
        ({
            let key = field_key(
                first.method_area.spec_constant(writer0.constant_pool as int, put as int),
            )->0;
            let width = value_cells(key.descriptor)->0;
            let depth = writer0.operand_stack@.len() as int;
            &&& r == Ok::<Step, VmError>(Step::Next)
            &&& reader1.operand_stack@ == reader0.operand_stack@ + writer0.operand_stack@.subrange(
                depth - width,
                depth,
            )
        }),
{
    let class = writer0.constant_pool as int;
    let x = first.method_area.classes@;
    let y = second.method_area.classes@;
    let key = field_key(first.method_area.spec_constant(class, put as int))->0;
    let width = value_cells(key.descriptor)->0;
    let depth = writer0.operand_stack@.len() as int;
    let values = writer0.operand_stack@.subrange(depth - width, depth);
    assert(first.method_area.is_initialized(key.class)) by {
        if !first.method_area.is_initialized(key.class) {
            let (mid, er) = choose|mid: GlobalMemory, er: Result<Ensured, VmError>|
                {
                    &&& same_but_pool(first, mid, class)
                    &&& #[trigger] ensure_class_post(mid, second, key.class, er)
                    &&& Ok::<Step, VmError>(Step::Next) == step_of(er)
                };
        }
    }
    let (i, offset) = static_place(x, key);
    lemma_index_of(x, key.class);
    assert forall|j: int| 0 <= j < x.len() implies (#[trigger] x[j]).spec_name() == y[j].spec_name() by {
        if j == class || j == i {
            assert(same_identity(x[j], y[j]) || x[j] == y[j]);
        } else {
            assert(y[j] == x[j]);
        }
    }
    lemma_index_of_same_names(x, y, key.class);
    assert(same_identity(x[i], y[i]));
    let stored = overwritten(statics_of(x, i), offset, values);
    assert(statics_of(y, i) == stored);
    assert(stored.subrange(offset, offset + width) =~= values);
    assert(reader0@.stack.subrange(0, reader0@.stack.len() - 0) =~= reader0.operand_stack@);
}

} // verus!
