//! Programs run on the machine from class files that the tests assemble.

use std::collections::HashMap;

use matebabe::descriptor::parse_method_descriptor;
use matebabe::error::VmError;
use matebabe::instr::FloatOp;
use matebabe::klass::Klass;
use matebabe::vm::{run, Signal, Task, VM};

// ---- a small assembler for class files -------------------------------

struct Pool {
    bytes: Vec<u8>,
    next: u16,
}

impl Pool {
    fn new() -> Pool {
        Pool { bytes: Vec::new(), next: 1 }
    }

    fn take(&mut self, slots: u16) -> u16 {
        let index = self.next;
        self.next += slots;
        index
    }

    fn u16(&mut self, v: u16) {
        self.bytes.extend_from_slice(&v.to_be_bytes());
    }

    fn utf8(&mut self, text: &str) -> u16 {
        self.bytes.push(1);
        self.u16(text.len() as u16);
        self.bytes.extend_from_slice(text.as_bytes());
        self.take(1)
    }

    fn class(&mut self, name: &str) -> u16 {
        let n = self.utf8(name);
        self.bytes.push(7);
        self.u16(n);
        self.take(1)
    }

    fn string(&mut self, text: &str) -> u16 {
        let n = self.utf8(text);
        self.bytes.push(8);
        self.u16(n);
        self.take(1)
    }

    fn integer(&mut self, v: i32) -> u16 {
        self.bytes.push(3);
        self.bytes.extend_from_slice(&v.to_be_bytes());
        self.take(1)
    }

    fn float_bits(&mut self, bits: u32) -> u16 {
        self.bytes.push(4);
        self.bytes.extend_from_slice(&bits.to_be_bytes());
        self.take(1)
    }

    fn long(&mut self, v: i64) -> u16 {
        self.bytes.push(5);
        self.bytes.extend_from_slice(&v.to_be_bytes());
        self.take(2)
    }

    fn double_bits(&mut self, bits: u64) -> u16 {
        self.bytes.push(6);
        self.bytes.extend_from_slice(&bits.to_be_bytes());
        self.take(2)
    }

    fn name_and_type(&mut self, name: &str, descriptor: &str) -> u16 {
        let n = self.utf8(name);
        let d = self.utf8(descriptor);
        self.bytes.push(12);
        self.u16(n);
        self.u16(d);
        self.take(1)
    }

    fn member(&mut self, tag: u8, class: &str, name: &str, descriptor: &str) -> u16 {
        let c = self.class(class);
        let nt = self.name_and_type(name, descriptor);
        self.bytes.push(tag);
        self.u16(c);
        self.u16(nt);
        self.take(1)
    }

    fn field_ref(&mut self, class: &str, name: &str, descriptor: &str) -> u16 {
        self.member(9, class, name, descriptor)
    }

    fn method_ref(&mut self, class: &str, name: &str, descriptor: &str) -> u16 {
        self.member(10, class, name, descriptor)
    }

    fn interface_method_ref(&mut self, class: &str, name: &str, descriptor: &str) -> u16 {
        self.member(11, class, name, descriptor)
    }
}

struct Member {
    access: u16,
    name: u16,
    descriptor: u16,
    attributes: Vec<Vec<u8>>,
}

const STATIC: u16 = 0x0008;
const NATIVE: u16 = 0x0100;

fn code_attribute(
    pool: &mut Pool,
    max_stack: u16,
    max_locals: u16,
    code: &[u8],
    handlers: &[(u16, u16, u16, u16)],
) -> Vec<u8> {
    let name = pool.utf8("Code");
    let mut body = Vec::new();
    body.extend_from_slice(&max_stack.to_be_bytes());
    body.extend_from_slice(&max_locals.to_be_bytes());
    body.extend_from_slice(&(code.len() as u32).to_be_bytes());
    body.extend_from_slice(code);
    body.extend_from_slice(&(handlers.len() as u16).to_be_bytes());
    for (start, end, handler, catch_type) in handlers {
        body.extend_from_slice(&start.to_be_bytes());
        body.extend_from_slice(&end.to_be_bytes());
        body.extend_from_slice(&handler.to_be_bytes());
        body.extend_from_slice(&catch_type.to_be_bytes());
    }
    body.extend_from_slice(&0u16.to_be_bytes());
    let mut attribute = Vec::new();
    attribute.extend_from_slice(&name.to_be_bytes());
    attribute.extend_from_slice(&(body.len() as u32).to_be_bytes());
    attribute.extend_from_slice(&body);
    attribute
}

fn method(
    pool: &mut Pool,
    access: u16,
    name: &str,
    descriptor: &str,
    max_stack: u16,
    max_locals: u16,
    code: &[u8],
    handlers: &[(u16, u16, u16, u16)],
) -> Member {
    let n = pool.utf8(name);
    let d = pool.utf8(descriptor);
    let attribute = code_attribute(pool, max_stack, max_locals, code, handlers);
    Member { access, name: n, descriptor: d, attributes: vec![attribute] }
}

fn native_method(pool: &mut Pool, access: u16, name: &str, descriptor: &str) -> Member {
    let n = pool.utf8(name);
    let d = pool.utf8(descriptor);
    Member { access: access | NATIVE, name: n, descriptor: d, attributes: Vec::new() }
}

fn field(pool: &mut Pool, access: u16, name: &str, descriptor: &str) -> Member {
    let n = pool.utf8(name);
    let d = pool.utf8(descriptor);
    Member { access, name: n, descriptor: d, attributes: Vec::new() }
}

fn members(out: &mut Vec<u8>, list: &[Member]) {
    out.extend_from_slice(&(list.len() as u16).to_be_bytes());
    for m in list {
        out.extend_from_slice(&m.access.to_be_bytes());
        out.extend_from_slice(&m.name.to_be_bytes());
        out.extend_from_slice(&m.descriptor.to_be_bytes());
        out.extend_from_slice(&(m.attributes.len() as u16).to_be_bytes());
        for a in &m.attributes {
            out.extend_from_slice(a);
        }
    }
}

fn class_file(
    mut pool: Pool,
    access: u16,
    this: &str,
    parent: Option<&str>,
    interfaces: &[&str],
    fields: &[Member],
    methods: &[Member],
) -> Vec<u8> {
    let this_index = pool.class(this);
    let parent_index = match parent {
        Some(name) => pool.class(name),
        None => 0,
    };
    let interface_indices: Vec<u16> = interfaces.iter().map(|name| pool.class(name)).collect();
    let mut out = Vec::new();
    out.extend_from_slice(&0xcafe_babeu32.to_be_bytes());
    out.extend_from_slice(&0u16.to_be_bytes());
    out.extend_from_slice(&55u16.to_be_bytes());
    out.extend_from_slice(&pool.next.to_be_bytes());
    out.extend_from_slice(&pool.bytes);
    out.extend_from_slice(&access.to_be_bytes());
    out.extend_from_slice(&this_index.to_be_bytes());
    out.extend_from_slice(&parent_index.to_be_bytes());
    out.extend_from_slice(&(interface_indices.len() as u16).to_be_bytes());
    for i in interface_indices {
        out.extend_from_slice(&i.to_be_bytes());
    }
    members(&mut out, fields);
    members(&mut out, methods);
    out.extend_from_slice(&0u16.to_be_bytes());
    out
}

fn hi(v: u16) -> u8 {
    (v >> 8) as u8
}

fn lo(v: u16) -> u8 {
    (v & 0xff) as u8
}

// ---- the host ----------------------------------------------------------

struct Host {
    classes: HashMap<String, Vec<u8>>,
    asked: Vec<String>,
    initializers: usize,
    floats: usize,
    time: u64,
}

fn float_result(op: FloatOp, a: u64, b: u64) -> u64 {
    let fa = f32::from_bits(a as u32);
    let fb = f32::from_bits(b as u32);
    let da = f64::from_bits(a);
    let db = f64::from_bits(b);
    let order = |less: bool, equal: bool, greater: bool, nan: i32| -> u64 {
        let v: i32 = if greater {
            1
        } else if equal {
            0
        } else if less {
            -1
        } else {
            nan
        };
        v as u32 as u64
    };
    match op {
        FloatOp::FAdd => (fa + fb).to_bits() as u64,
        FloatOp::FSub => (fa - fb).to_bits() as u64,
        FloatOp::FMul => (fa * fb).to_bits() as u64,
        FloatOp::FDiv => (fa / fb).to_bits() as u64,
        FloatOp::FRem => (fa % fb).to_bits() as u64,
        FloatOp::FNeg => (-fa).to_bits() as u64,
        FloatOp::DAdd => (da + db).to_bits(),
        FloatOp::DSub => (da - db).to_bits(),
        FloatOp::DMul => (da * db).to_bits(),
        FloatOp::DDiv => (da / db).to_bits(),
        FloatOp::DRem => (da % db).to_bits(),
        FloatOp::DNeg => (-da).to_bits(),
        FloatOp::I2F => ((a as u32 as i32) as f32).to_bits() as u64,
        FloatOp::I2D => ((a as u32 as i32) as f64).to_bits(),
        FloatOp::L2F => ((a as i64) as f32).to_bits() as u64,
        FloatOp::L2D => ((a as i64) as f64).to_bits(),
        FloatOp::F2I => (fa as i32) as u32 as u64,
        FloatOp::F2L => (fa as i64) as u64,
        FloatOp::F2D => (fa as f64).to_bits(),
        FloatOp::D2I => (da as i32) as u32 as u64,
        FloatOp::D2L => (da as i64) as u64,
        FloatOp::D2F => (da as f32).to_bits() as u64,
        FloatOp::FCompareL => order(fa < fb, fa == fb, fa > fb, -1),
        FloatOp::FCompareG => order(fa < fb, fa == fb, fa > fb, 1),
        FloatOp::DCompareL => order(da < db, da == db, da > db, -1),
        FloatOp::DCompareG => order(da < db, da == db, da > db, 1),
    }
}

impl Host {
    fn new() -> Host {
        let mut host = Host {
            classes: HashMap::new(),
            asked: Vec::new(),
            initializers: 0,
            floats: 0,
            time: 1_700_000_000_123_456_789,
        };
        host.add("java/lang/Object", object_class());
        host.add("java/lang/Class", plain_class("java/lang/Class", "java/lang/Object"));
        host
    }

    fn add(&mut self, name: &str, bytes: Vec<u8>) {
        self.classes.insert(name.to_string(), bytes);
    }

    /// Takes one step and answers what it asks. Returns whether the machine
    /// has finished.
    fn step(&mut self, vm: &mut VM) -> Result<bool, VmError> {
        let threads = vm.threads.len();
        match vm.step()? {
            Signal::Continue => {
                if vm.threads.len() > threads && threads > 0 {
                    self.initializers += 1;
                }
                Ok(false)
            }
            Signal::Finished => Ok(true),
            Signal::NeedClass(name) => {
                self.asked.push(name.clone());
                let bytes = self.classes.get(&name).map(|b| b.as_slice());
                vm.supply_class(bytes)?;
                Ok(false)
            }
            Signal::NeedTime => {
                vm.supply_time(self.time)?;
                Ok(false)
            }
            Signal::NeedFloat(op, a, b) => {
                self.floats += 1;
                vm.supply_float(float_result(op, a, b))?;
                Ok(false)
            }
        }
    }

    fn finish(&mut self, vm: &mut VM) -> Result<(), VmError> {
        for _ in 0..100_000 {
            if self.step(vm)? {
                return Ok(());
            }
        }
        panic!("the machine did not finish");
    }

    /// Steps until the bottom frame of the first thread stands at `pc`
    /// with no frame above it.
    fn until(&mut self, vm: &mut VM, pc: usize) -> Result<(), VmError> {
        for _ in 0..100_000 {
            if vm.threads.len() == 1
                && vm.threads[0].jvm_stack.len() == 1
                && !vm.threads[0].is_throwing
                && vm.threads[0].jvm_stack[0].instruction_counter == pc
            {
                return Ok(());
            }
            if self.step(vm)? {
                panic!("the machine finished before the address was reached");
            }
        }
        panic!("the address was not reached");
    }
}

fn object_class() -> Vec<u8> {
    let mut pool = Pool::new();
    let init = method(&mut pool, 0x0001, "<init>", "()V", 0, 1, &[0xb1], &[]);
    class_file(pool, 0x0021, "java/lang/Object", None, &[], &[], &[init])
}

fn plain_class(name: &str, parent: &str) -> Vec<u8> {
    class_file(Pool::new(), 0x0021, name, Some(parent), &[], &[], &[])
}

fn string_class() -> Vec<u8> {
    let mut pool = Pool::new();
    let value = pool.field_ref("java/lang/String", "value", "[B");
    let fields = vec![
        field(&mut pool, 0x0012, "value", "[B"),
        field(&mut pool, 0x0012, "coder", "B"),
    ];
    // aload_0; getfield value; arraylength; ireturn
    let length = method(
        &mut pool,
        0x0001,
        "length",
        "()I",
        1,
        1,
        &[0x2a, 0xb4, hi(value), lo(value), 0xbe, 0xac],
        &[],
    );
    class_file(pool, 0x0031, "java/lang/String", Some("java/lang/Object"), &[], &fields, &[length])
}

/// A machine that is to run the static method `main` of the class `name`.
fn machine_for(name: &str) -> VM {
    let mut vm = VM::new();
    vm.schedule(Task::Call {
        class: name.to_string(),
        method: "main".to_string(),
        descriptor: parse_method_descriptor("([Ljava/lang/String;)V".to_string()).unwrap(),
    });
    vm.schedule(Task::Class(name.to_string()));
    vm.schedule(Task::Class("java/lang/Object".to_string()));
    vm.schedule(Task::Class("java/lang/Class".to_string()));
    vm
}

/// A class `name` whose only method is `main`, with this code.
fn main_class(
    name: &str,
    mut pool: Pool,
    max_stack: u16,
    max_locals: u16,
    code: &[u8],
    handlers: &[(u16, u16, u16, u16)],
) -> Vec<u8> {
    let main = method(
        &mut pool,
        0x0009,
        "main",
        "([Ljava/lang/String;)V",
        max_stack,
        max_locals,
        code,
        handlers,
    );
    class_file(pool, 0x0021, name, Some("java/lang/Object"), &[], &[], &[main])
}

fn local(vm: &VM, index: usize) -> u32 {
    vm.threads[0].jvm_stack[0].local_variables[index]
}

// ---- the scenarios -------------------------------------------------------

#[test]
fn arithmetic_stores_the_sum() {
    // bipush 2; bipush 3; iadd; istore_1; iload_1; pop; return
    let code = [0x10, 2, 0x10, 3, 0x60, 0x3c, 0x1b, 0x57, 0xb1];
    let mut host = Host::new();
    host.add("A", main_class("A", Pool::new(), 2, 2, &code, &[]));
    let mut vm = machine_for("A");
    host.until(&mut vm, 8).unwrap();
    assert_eq!(local(&vm, 1), 5);
    host.finish(&mut vm).unwrap();
    assert_eq!(vm.threads.len(), 0);
}

#[test]
fn conditional_takes_the_branch() {
    // 0: iconst_0; 1: ifeq +8 (to 9); 4: iconst_1; 5: istore_1; 6: goto +5 (to 11);
    // 9: iconst_2; 10: istore_1; 11: return
    let code = [0x03, 0x99, 0, 8, 0x04, 0x3c, 0xa7, 0, 5, 0x05, 0x3c, 0xb1];
    let mut host = Host::new();
    host.add("B", main_class("B", Pool::new(), 1, 2, &code, &[]));
    let mut vm = machine_for("B");
    host.until(&mut vm, 11).unwrap();
    assert_eq!(local(&vm, 1), 2);
    host.finish(&mut vm).unwrap();
}

fn getter_class(name: &str, parent: &str, value: u8) -> Vec<u8> {
    let mut pool = Pool::new();
    // bipush value; ireturn
    let get = method(&mut pool, 0x0001, "get", "()I", 1, 1, &[0x10, value, 0xac], &[]);
    class_file(pool, 0x0021, name, Some(parent), &[], &[], &[get])
}

#[test]
fn virtual_dispatch_finds_the_method_of_the_object() {
    let mut pool = Pool::new();
    let sub = pool.class("Sub");
    let get = pool.method_ref("Base", "get", "()I");
    // new Sub; invokevirtual Base.get; istore_1; return
    let code = [0xbb, hi(sub), lo(sub), 0xb6, hi(get), lo(get), 0x3c, 0xb1];
    let mut host = Host::new();
    host.add("Base", getter_class("Base", "java/lang/Object", 1));
    host.add("Sub", getter_class("Sub", "Base", 2));
    host.add("Main", main_class("Main", pool, 1, 2, &code, &[]));
    let mut vm = machine_for("Main");
    host.until(&mut vm, 7).unwrap();
    assert_eq!(local(&vm, 1), 2);
    host.finish(&mut vm).unwrap();
}

fn counter_class() -> Vec<u8> {
    let mut pool = Pool::new();
    let x = pool.field_ref("C", "x", "I");
    let fields = vec![field(&mut pool, STATIC, "x", "I")];
    // bipush 7; putstatic C.x; return
    let clinit = method(
        &mut pool,
        STATIC,
        "<clinit>",
        "()V",
        1,
        0,
        &[0x10, 7, 0xb3, hi(x), lo(x), 0xb1],
        &[],
    );
    class_file(pool, 0x0021, "C", Some("java/lang/Object"), &[], &fields, &[clinit])
}

#[test]
fn class_initializer_runs_once() {
    let mut pool = Pool::new();
    let x = pool.field_ref("C", "x", "I");
    // getstatic C.x; istore_1; getstatic C.x; istore_2; return
    let code = [0xb2, hi(x), lo(x), 0x3c, 0xb2, hi(x), lo(x), 0x3d, 0xb1];
    let mut host = Host::new();
    host.add("C", counter_class());
    host.add("Main", main_class("Main", pool, 1, 3, &code, &[]));
    let mut vm = machine_for("Main");
    host.until(&mut vm, 8).unwrap();
    assert_eq!(local(&vm, 1), 7);
    assert_eq!(local(&vm, 2), 7);
    assert_eq!(host.initializers, 1);
    assert_eq!(host.asked.iter().filter(|n| n.as_str() == "C").count(), 1);
    host.finish(&mut vm).unwrap();
}

#[test]
fn division_by_zero_is_caught() {
    let mut pool = Pool::new();
    let caught = pool.class("java/lang/ArithmeticException");
    // 0: iconst_1; 1: iconst_0; 2: idiv; 3: istore_1; 4: goto +7 (to 11);
    // 7: pop; 8: iconst_m1; 9: istore_1; 10: nop; 11: return
    let code = [0x04, 0x03, 0x6c, 0x3c, 0xa7, 0, 7, 0x57, 0x02, 0x3c, 0x00, 0xb1];
    let mut host = Host::new();
    host.add(
        "java/lang/ArithmeticException",
        plain_class("java/lang/ArithmeticException", "java/lang/Object"),
    );
    host.add("Main", main_class("Main", pool, 2, 2, &code, &[(0, 4, 7, caught)]));
    let mut vm = machine_for("Main");
    host.until(&mut vm, 7).unwrap();
    // The division has taken its operands: the handler finds the reference alone.
    let stack = &vm.threads[0].jvm_stack[0].operand_stack;
    assert_eq!(stack.len(), 1);
    assert_eq!(
        vm.global_memory.heap.data[stack[0] as usize].field_descriptor,
        "Ljava/lang/ArithmeticException;"
    );
    assert!(!vm.threads[0].is_throwing);
    host.until(&mut vm, 11).unwrap();
    assert_eq!(local(&vm, 1), 0xffff_ffff);
    assert_eq!(host.finish(&mut vm), Ok(()));
}

#[test]
fn string_literal_has_its_length() {
    let mut pool = Pool::new();
    let text = pool.string("hi");
    let length = pool.method_ref("java/lang/String", "length", "()I");
    // ldc "hi"; invokevirtual String.length; istore_1; return
    let code = [0x12, lo(text), 0xb6, hi(length), lo(length), 0x3c, 0xb1];
    let mut host = Host::new();
    host.add("java/lang/String", string_class());
    host.add("Main", main_class("Main", pool, 1, 2, &code, &[]));
    let mut vm = machine_for("Main");
    host.until(&mut vm, 6).unwrap();
    assert_eq!(local(&vm, 1), 2);
    host.finish(&mut vm).unwrap();
}

#[test]
fn string_literal_holds_the_bytes_of_its_constant() {
    let mut pool = Pool::new();
    let text = pool.string("h\u{e9}!");
    // ldc; astore_1; return
    let code = [0x12, lo(text), 0x4c, 0xb1];
    let mut host = Host::new();
    host.add("java/lang/String", string_class());
    host.add("Main", main_class("Main", pool, 1, 2, &code, &[]));
    let mut vm = machine_for("Main");
    host.until(&mut vm, 3).unwrap();
    let reference = local(&vm, 1) as usize;
    let heap = &vm.global_memory.heap.data;
    assert_eq!(heap[reference].field_descriptor, "Ljava/lang/String;");
    let array = heap[reference].data[0] as usize;
    assert_eq!(heap[reference].data[1], 1);
    assert_eq!(heap[array].field_descriptor, "[B");
    assert_eq!(heap[array].data, vec![0x68, 0xc3, 0xa9, 0x21]);
    assert_eq!(
        matebabe::strings::string_from_java_string(&vm.global_memory, reference as u32),
        Ok("h\u{e9}!".to_string())
    );
}

#[test]
fn uncaught_exception_ends_the_run() {
    // iconst_1; iconst_0; idiv; return
    let code = [0x04, 0x03, 0x6c, 0xb1];
    let mut host = Host::new();
    host.add(
        "java/lang/ArithmeticException",
        plain_class("java/lang/ArithmeticException", "java/lang/Object"),
    );
    host.add("Main", main_class("Main", Pool::new(), 2, 1, &code, &[]));
    let mut vm = machine_for("Main");
    let end = host.finish(&mut vm);
    assert!(matches!(end, Err(VmError::UnhandledException(_))));
}

#[test]
fn exception_outside_the_range_goes_up_to_the_invoker() {
    // thrower: 0: iconst_1; 1: iconst_0; 2: idiv; 3: ireturn, with a handler that covers
    // only address 3.
    let mut pool = Pool::new();
    let any = 0;
    let thrower = method(
        &mut pool,
        STATIC,
        "thrower",
        "()I",
        2,
        0,
        &[0x04, 0x03, 0x6c, 0xac, 0x57, 0x03, 0xac],
        &[(3, 4, 4, any)],
    );
    let call = pool.method_ref("Main", "thrower", "()I");
    // 0: invokestatic thrower; 3: istore_1; 4: goto +7 (to 11); 7: pop; 8: bipush 9;
    // 10: istore_1; 11: return
    let code = [0xb8, hi(call), lo(call), 0x3c, 0xa7, 0, 7, 0x57, 0x10, 9, 0x3c, 0xb1];
    let main = method(
        &mut pool,
        0x0009,
        "main",
        "([Ljava/lang/String;)V",
        1,
        2,
        &code,
        &[(0, 3, 7, any)],
    );
    let bytes = class_file(pool, 0x0021, "Main", Some("java/lang/Object"), &[], &[], &[thrower, main]);
    let mut host = Host::new();
    host.add(
        "java/lang/ArithmeticException",
        plain_class("java/lang/ArithmeticException", "java/lang/Object"),
    );
    host.add("Main", bytes);
    let mut vm = machine_for("Main");
    // Up to the moment at which the exception has left the frame of `thrower`.
    for _ in 0..10_000 {
        if vm.threads.len() == 1 && vm.threads[0].is_throwing {
            break;
        }
        assert_eq!(host.step(&mut vm), Ok(false));
    }
    let thread = &vm.threads[0];
    assert!(thread.is_throwing);
    assert_eq!(thread.jvm_stack.len(), 1);
    let invoker = &thread.jvm_stack[0];
    assert_eq!(invoker.method_name, "main");
    assert_eq!(invoker.instruction_counter, 0);
    assert_eq!(invoker.local_variables, vec![0, 0]);
    assert_eq!(invoker.operand_stack.len(), 1);
    assert_eq!(
        vm.global_memory.heap.data[invoker.operand_stack[0] as usize].field_descriptor,
        "Ljava/lang/ArithmeticException;"
    );
    host.until(&mut vm, 11).unwrap();
    assert_eq!(local(&vm, 1), 9);
    host.finish(&mut vm).unwrap();
}

#[test]
fn handler_of_a_superclass_catches() {
    let mut pool = Pool::new();
    let caught = pool.class("java/lang/RuntimeException");
    // 0: iconst_1; 1: iconst_0; 2: irem; 3: pop; 4: return; 5: astore_1; 6: return
    let code = [0x04, 0x03, 0x70, 0x57, 0xb1, 0x4c, 0xb1];
    let mut host = Host::new();
    host.add(
        "java/lang/RuntimeException",
        plain_class("java/lang/RuntimeException", "java/lang/Object"),
    );
    host.add(
        "java/lang/ArithmeticException",
        plain_class("java/lang/ArithmeticException", "java/lang/RuntimeException"),
    );
    host.add("Main", main_class("Main", pool, 2, 2, &code, &[(0, 3, 5, caught)]));
    let mut vm = machine_for("Main");
    host.until(&mut vm, 6).unwrap();
    let reference = local(&vm, 1) as usize;
    assert_eq!(
        vm.global_memory.heap.data[reference].field_descriptor,
        "Ljava/lang/ArithmeticException;"
    );
}

#[test]
fn handler_finds_what_was_below_the_operands() {
    let mut pool = Pool::new();
    let caught = pool.class("java/lang/ArithmeticException");
    // 0: bipush 7; 2: iconst_1; 3: iconst_0; 4: idiv; 5: pop; 6: pop; 7: return;
    // 8: astore_1; 9: istore_2; 10: return
    let code = [0x10, 7, 0x04, 0x03, 0x6c, 0x57, 0x57, 0xb1, 0x4c, 0x3d, 0xb1];
    let mut host = Host::new();
    host.add(
        "java/lang/ArithmeticException",
        plain_class("java/lang/ArithmeticException", "java/lang/Object"),
    );
    host.add("Main", main_class("Main", pool, 3, 3, &code, &[(0, 5, 8, caught)]));
    let mut vm = machine_for("Main");
    host.until(&mut vm, 8).unwrap();
    let stack = vm.threads[0].jvm_stack[0].operand_stack.clone();
    assert_eq!(stack.len(), 2);
    assert_eq!(stack[0], 7);
    host.until(&mut vm, 10).unwrap();
    assert_eq!(local(&vm, 1), stack[1]);
    assert_eq!(local(&vm, 2), 7);
}

#[test]
fn handler_without_room_for_the_reference_fails() {
    // thrower: iconst_1; iconst_0; idiv; ireturn, without a handler
    let mut pool = Pool::new();
    let thrower = method(&mut pool, STATIC, "thrower", "()I", 2, 0, &[0x04, 0x03, 0x6c, 0xac], &[]);
    let call = pool.method_ref("Main", "thrower", "()I");
    // 0: iconst_5; 1: invokestatic thrower; 4: pop; 5: return; 6: pop; 7: return,
    // with one cell of stack, which is taken when the handler is to get the reference
    let code = [0x08, 0xb8, hi(call), lo(call), 0x57, 0xb1, 0x57, 0xb1];
    let main =
        method(&mut pool, 0x0009, "main", "([Ljava/lang/String;)V", 1, 1, &code, &[(0, 4, 6, 0)]);
    let bytes = class_file(pool, 0x0021, "Main", Some("java/lang/Object"), &[], &[], &[thrower, main]);
    let mut host = Host::new();
    host.add(
        "java/lang/ArithmeticException",
        plain_class("java/lang/ArithmeticException", "java/lang/Object"),
    );
    host.add("Main", bytes);
    let mut vm = machine_for("Main");
    // The exception reaches the invoker, full as its stack is.
    for _ in 0..10_000 {
        if vm.threads.len() == 1 && vm.threads[0].is_throwing {
            break;
        }
        assert_eq!(host.step(&mut vm), Ok(false));
    }
    assert_eq!(vm.threads[0].jvm_stack.len(), 1);
    assert_eq!(vm.threads[0].jvm_stack[0].operand_stack.len(), 2);
    assert_eq!(vm.threads[0].jvm_stack[0].operand_stack[0], 5);
    assert_eq!(host.finish(&mut vm), Err(VmError::StackOverflow));
}

/// A class `Main` whose `main` calls `middle`, which calls `thrower`, which
/// divides by zero; `main` catches. `middle` has `max_stack` cells of stack
/// and pushes as many before it calls.
fn passing_through(max_stack: u16) -> Vec<u8> {
    let mut pool = Pool::new();
    // iconst_1; iconst_0; idiv; pop; return
    let thrower =
        method(&mut pool, STATIC, "thrower", "()V", 2, 0, &[0x04, 0x03, 0x6c, 0x57, 0xb1], &[]);
    let inner = pool.method_ref("Main", "thrower", "()V");
    let mut code = Vec::new();
    for _ in 0..max_stack {
        code.push(0x08);
    }
    code.extend_from_slice(&[0xb8, hi(inner), lo(inner)]);
    for _ in 0..max_stack {
        code.push(0x57);
    }
    code.push(0xb1);
    let middle = method(&mut pool, STATIC, "middle", "()V", max_stack, 0, &code, &[]);
    let outer = pool.method_ref("Main", "middle", "()V");
    // 0: invokestatic middle; 3: return; 4: astore_1; 5: return
    let code = [0xb8, hi(outer), lo(outer), 0xb1, 0x4c, 0xb1];
    let main =
        method(&mut pool, 0x0009, "main", "([Ljava/lang/String;)V", 1, 2, &code, &[(0, 3, 4, 0)]);
    class_file(pool, 0x0021, "Main", Some("java/lang/Object"), &[], &[], &[thrower, middle, main])
}

#[test]
fn exception_passes_through_an_invoker_without_stack() {
    for max_stack in [0u16, 1, 3] {
        let mut host = Host::new();
        host.add(
            "java/lang/ArithmeticException",
            plain_class("java/lang/ArithmeticException", "java/lang/Object"),
        );
        host.add("Main", passing_through(max_stack));
        let mut vm = machine_for("Main");
        // Up to the moment at which the exception has arrived in `middle`.
        for _ in 0..10_000 {
            if vm.threads.len() == 1 && vm.threads[0].is_throwing {
                break;
            }
            assert_eq!(host.step(&mut vm), Ok(false));
        }
        let thread = &vm.threads[0];
        assert_eq!(thread.jvm_stack.len(), 2);
        let middle = &thread.jvm_stack[1];
        assert_eq!(middle.method_name, "middle");
        assert_eq!(middle.max_stack, max_stack as usize);
        assert_eq!(middle.operand_stack.len(), max_stack as usize + 1);
        assert_eq!(middle.instruction_counter, max_stack as usize);
        let reference = *middle.operand_stack.last().unwrap();
        // One step more, and it has left `middle` for `main`.
        assert_eq!(host.step(&mut vm), Ok(false));
        let thread = &vm.threads[0];
        assert!(thread.is_throwing);
        assert_eq!(thread.jvm_stack.len(), 1);
        assert_eq!(thread.jvm_stack[0].operand_stack, vec![reference]);
        // `main` catches it.
        host.until(&mut vm, 5).unwrap();
        assert_eq!(local(&vm, 1), reference);
        assert_eq!(
            vm.global_memory.heap.data[reference as usize].field_descriptor,
            "Ljava/lang/ArithmeticException;"
        );
        assert_eq!(host.finish(&mut vm), Ok(()));
    }
}

#[test]
fn handler_of_another_class_does_not_catch() {
    let mut pool = Pool::new();
    let other = pool.class("Other");
    let code = [0x04, 0x03, 0x6c, 0x57, 0xb1, 0x4c, 0xb1];
    let mut host = Host::new();
    host.add("Other", plain_class("Other", "java/lang/Object"));
    host.add(
        "java/lang/ArithmeticException",
        plain_class("java/lang/ArithmeticException", "java/lang/Object"),
    );
    host.add("Main", main_class("Main", pool, 2, 2, &code, &[(0, 3, 5, other)]));
    let mut vm = machine_for("Main");
    assert!(matches!(host.finish(&mut vm), Err(VmError::UnhandledException(_))));
}

#[test]
fn thrown_object_is_caught_by_athrow_handler() {
    let mut pool = Pool::new();
    let boom = pool.class("Boom");
    // 0: new Boom; 3: athrow; 4: astore_1; 5: return
    let code = [0xbb, hi(boom), lo(boom), 0xbf, 0x4c, 0xb1];
    let mut host = Host::new();
    host.add("Boom", plain_class("Boom", "java/lang/Object"));
    host.add("Main", main_class("Main", pool, 1, 2, &code, &[(0, 4, 4, 0)]));
    let mut vm = machine_for("Main");
    host.until(&mut vm, 5).unwrap();
    assert_ne!(local(&vm, 1), 0);
    assert!(!vm.threads[0].is_throwing);
}

#[test]
fn long_arithmetic_uses_two_cells() {
    let mut pool = Pool::new();
    let big = pool.long(0x1_0000_0005);
    // ldc2_w big; lconst_1; ladd; lstore_1; lload_1; l2i; istore_3; return
    let code = [0x14, hi(big), lo(big), 0x0a, 0x61, 0x40, 0x1f, 0x88, 0x3e, 0xb1];
    let mut host = Host::new();
    host.add("Main", main_class("Main", pool, 4, 4, &code, &[]));
    let mut vm = machine_for("Main");
    host.until(&mut vm, 9).unwrap();
    assert_eq!(local(&vm, 1), 1);
    assert_eq!(local(&vm, 2), 6);
    assert_eq!(local(&vm, 3), 6);
}

#[test]
fn int_through_long_and_byte_is_its_cast() {
    for (x, cast) in [(128u16, 0xffff_ff80u32), (255, 0xffff_ffff), (127, 127), (0x1234, 0x34)] {
        // sipush x; i2l; l2i; i2b; istore_1; return
        let code = [0x11, hi(x), lo(x), 0x85, 0x88, 0x91, 0x3c, 0xb1];
        let mut host = Host::new();
        host.add("Main", main_class("Main", Pool::new(), 2, 2, &code, &[]));
        let mut vm = machine_for("Main");
        host.until(&mut vm, 6).unwrap();
        assert_eq!(vm.threads[0].jvm_stack[0].operand_stack, vec![cast]);
        host.until(&mut vm, 7).unwrap();
        assert_eq!(local(&vm, 1), cast);
    }
}

#[test]
fn long_one_and_minus_one_add_up_to_zero() {
    let mut pool = Pool::new();
    let minus_one = pool.long(-1);
    // lconst_1; ldc2_w -1; ladd; lstore_1; return
    let code = [0x0a, 0x14, hi(minus_one), lo(minus_one), 0x61, 0x40, 0xb1];
    let mut host = Host::new();
    host.add("Main", main_class("Main", pool, 4, 3, &code, &[]));
    let mut vm = machine_for("Main");
    host.until(&mut vm, 4).unwrap();
    assert_eq!(vm.threads[0].jvm_stack[0].operand_stack, vec![0, 1, 0xffff_ffff, 0xffff_ffff]);
    host.until(&mut vm, 5).unwrap();
    assert_eq!(vm.threads[0].jvm_stack[0].operand_stack, vec![0, 0]);
}

#[test]
fn long_beyond_the_last_local_fails() {
    // lconst_1; lstore_1; return, with two local variables: local 2 is missing
    let code = [0x0a, 0x40, 0xb1];
    let mut host = Host::new();
    host.add("Main", main_class("Main", Pool::new(), 2, 2, &code, &[]));
    let mut vm = machine_for("Main");
    assert_eq!(host.finish(&mut vm), Err(VmError::BadLocal));
}

#[test]
fn operand_stack_is_bounded_by_max_stack() {
    // iconst_1; iconst_2; return, with room for one cell
    let code = [0x04, 0x05, 0xb1];
    let mut host = Host::new();
    host.add("Main", main_class("Main", Pool::new(), 1, 1, &code, &[]));
    let mut vm = machine_for("Main");
    assert_eq!(host.finish(&mut vm), Err(VmError::StackOverflow));
}

#[test]
fn pop_from_an_empty_stack_fails() {
    let code = [0x57, 0xb1];
    let mut host = Host::new();
    host.add("Main", main_class("Main", Pool::new(), 1, 1, &code, &[]));
    let mut vm = machine_for("Main");
    assert_eq!(host.finish(&mut vm), Err(VmError::StackUnderflow));
}

#[test]
fn local_beyond_max_locals_fails() {
    // iconst_0; istore_3; return, with two local variables
    let code = [0x03, 0x3e, 0xb1];
    let mut host = Host::new();
    host.add("Main", main_class("Main", Pool::new(), 1, 2, &code, &[]));
    let mut vm = machine_for("Main");
    assert_eq!(host.finish(&mut vm), Err(VmError::BadLocal));
}

#[test]
fn running_off_the_code_fails() {
    let code = [0x00];
    let mut host = Host::new();
    host.add("Main", main_class("Main", Pool::new(), 1, 1, &code, &[]));
    let mut vm = machine_for("Main");
    assert_eq!(host.finish(&mut vm), Err(VmError::BadCode));
}

#[test]
fn unknown_opcode_fails() {
    let code = [0xba, 0, 1, 0, 0];
    let mut host = Host::new();
    host.add("Main", main_class("Main", Pool::new(), 1, 1, &code, &[]));
    let mut vm = machine_for("Main");
    assert_eq!(host.finish(&mut vm), Err(VmError::UnsupportedOpcode(0xba)));
}

#[test]
fn missing_class_fails() {
    let mut host = Host::new();
    let mut vm = machine_for("Nowhere");
    assert_eq!(host.finish(&mut vm), Err(VmError::ClassNotFound));
    assert_eq!(host.asked.last().map(|s| s.as_str()), Some("Nowhere"));
}

#[test]
fn missing_method_fails() {
    let mut host = Host::new();
    host.add("Empty", plain_class("Empty", "java/lang/Object"));
    let mut vm = machine_for("Empty");
    assert_eq!(host.finish(&mut vm), Err(VmError::NoSuchMethod));
}

#[test]
fn missing_field_fails() {
    let mut pool = Pool::new();
    let y = pool.field_ref("C", "y", "I");
    let code = [0xb2, hi(y), lo(y), 0x57, 0xb1];
    let mut host = Host::new();
    host.add("C", counter_class());
    host.add("Main", main_class("Main", pool, 1, 1, &code, &[]));
    let mut vm = machine_for("Main");
    assert_eq!(host.finish(&mut vm), Err(VmError::NoSuchField));
}

#[test]
fn constant_of_the_wrong_kind_fails() {
    let mut pool = Pool::new();
    let number = pool.integer(3);
    let code = [0xbb, hi(number), lo(number), 0xb1];
    let mut host = Host::new();
    host.add("Main", main_class("Main", pool, 1, 1, &code, &[]));
    let mut vm = machine_for("Main");
    assert_eq!(host.finish(&mut vm), Err(VmError::Resolution));
}

#[test]
fn malformed_descriptor_fails() {
    let mut pool = Pool::new();
    let x = pool.field_ref("C", "x", "Q");
    let code = [0xb2, hi(x), lo(x), 0xb1];
    let mut host = Host::new();
    host.add("C", counter_class());
    host.add("Main", main_class("Main", pool, 1, 1, &code, &[]));
    let mut vm = machine_for("Main");
    assert_eq!(host.finish(&mut vm), Err(VmError::Descriptor));
}

#[test]
fn malformed_class_file_fails() {
    let mut host = Host::new();
    host.add("Main", vec![0xca, 0xfe, 0xba, 0xbe, 0, 0]);
    let mut vm = machine_for("Main");
    assert_eq!(host.finish(&mut vm), Err(VmError::Format));
}

#[test]
fn unasked_answers_are_refused() {
    let mut vm = VM::new();
    assert_eq!(vm.supply_time(1).map(|_| ()), Err(VmError::Unexpected));
    assert_eq!(vm.supply_float(1).map(|_| ()), Err(VmError::Unexpected));
    assert!(matches!(vm.step(), Ok(Signal::Finished)));
}

#[test]
fn class_that_inherits_from_itself_is_refused() {
    let mut host = Host::new();
    host.add("Loop", plain_class("Loop", "Loop"));
    let mut vm = machine_for("Loop");
    assert_eq!(host.finish(&mut vm), Err(VmError::Unexpected));
}

#[test]
fn arrays_store_and_load() {
    // 0: iconst_3; 1: newarray int; 3: astore_1; 4: aload_1; 5: iconst_2; 6: bipush 42;
    // 8: iastore; 9: aload_1; 10: iconst_2; 11: iaload; 12: istore_2; 13: aload_1;
    // 14: arraylength; 15: istore_3; 16: return
    let code = [
        0x06, 0xbc, 10, 0x4c, 0x2b, 0x05, 0x10, 42, 0x4f, 0x2b, 0x05, 0x2e, 0x3d, 0x2b, 0xbe, 0x3e,
        0xb1,
    ];
    let mut host = Host::new();
    host.add("Main", main_class("Main", Pool::new(), 3, 4, &code, &[]));
    let mut vm = machine_for("Main");
    host.until(&mut vm, 16).unwrap();
    assert_eq!(local(&vm, 2), 42);
    assert_eq!(local(&vm, 3), 3);
    let array = &vm.global_memory.heap.data[local(&vm, 1) as usize];
    assert_eq!(array.field_descriptor, "[I");
    assert_eq!(array.data, vec![0, 0, 42]);
}

#[test]
fn long_arrays_take_two_cells_for_each_element() {
    // 0: iconst_2; 1: newarray long; 3: astore_1; 4: aload_1; 5: iconst_1; 6: lconst_1;
    // 7: lastore; 8: aload_1; 9: arraylength; 10: istore_2; 11: return
    let code = [0x05, 0xbc, 11, 0x4c, 0x2b, 0x04, 0x0a, 0x50, 0x2b, 0xbe, 0x3d, 0xb1];
    let mut host = Host::new();
    host.add("Main", main_class("Main", Pool::new(), 4, 3, &code, &[]));
    let mut vm = machine_for("Main");
    host.until(&mut vm, 11).unwrap();
    assert_eq!(local(&vm, 2), 2);
    let array = &vm.global_memory.heap.data[local(&vm, 1) as usize];
    assert_eq!(array.field_descriptor, "[J");
    assert_eq!(array.data, vec![0, 0, 0, 1]);
}

#[test]
fn byte_arrays_narrow_what_they_store() {
    // 0: iconst_1; 1: newarray byte; 3: astore_1; 4: aload_1; 5: iconst_0; 6: sipush 0x1ff;
    // 9: bastore; 10: aload_1; 11: iconst_0; 12: baload; 13: istore_2; 14: return
    let code = [0x04, 0xbc, 8, 0x4c, 0x2b, 0x03, 0x11, 0x01, 0xff, 0x54, 0x2b, 0x03, 0x33, 0x3d, 0xb1];
    let mut host = Host::new();
    host.add("Main", main_class("Main", Pool::new(), 3, 3, &code, &[]));
    let mut vm = machine_for("Main");
    host.until(&mut vm, 14).unwrap();
    assert_eq!(local(&vm, 2), 0xffff_ffff);
}

fn exceptions(host: &mut Host) {
    for name in [
        "java/lang/ArithmeticException",
        "java/lang/NullPointerException",
        "java/lang/ArrayIndexOutOfBoundsException",
        "java/lang/ClassCastException",
        "java/lang/NegativeArraySizeException",
    ] {
        host.add(name, plain_class(name, "java/lang/Object"));
    }
}

/// Runs `code` as `main` with a handler for anything, and returns the
/// descriptor of what the handler caught.
fn caught_by(pool: Pool, max_stack: u16, code: &[u8]) -> String {
    let mut all = code.to_vec();
    let handler = all.len() as u16;
    // astore_1; return
    all.extend_from_slice(&[0x4c, 0xb1]);
    let mut host = Host::new();
    exceptions(&mut host);
    host.add("Boom", plain_class("Boom", "java/lang/Object"));
    host.add("Other", plain_class("Other", "java/lang/Object"));
    host.add("Main", main_class("Main", pool, max_stack, 2, &all, &[(0, handler, handler, 0)]));
    let mut vm = machine_for("Main");
    host.until(&mut vm, handler as usize + 1).unwrap();
    vm.global_memory.heap.data[local(&vm, 1) as usize].field_descriptor.clone()
}

#[test]
fn index_outside_the_array_raises() {
    // iconst_1; newarray int; iconst_1; iaload; pop; return
    let code = [0x04, 0xbc, 10, 0x04, 0x2e, 0x57, 0xb1];
    assert_eq!(caught_by(Pool::new(), 2, &code), "Ljava/lang/ArrayIndexOutOfBoundsException;");
    // iconst_1; newarray int; iconst_m1; iaload; pop; return
    let code = [0x04, 0xbc, 10, 0x02, 0x2e, 0x57, 0xb1];
    assert_eq!(caught_by(Pool::new(), 2, &code), "Ljava/lang/ArrayIndexOutOfBoundsException;");
}

#[test]
fn null_array_raises() {
    // aconst_null; iconst_0; iaload; pop; return
    let code = [0x01, 0x03, 0x2e, 0x57, 0xb1];
    assert_eq!(caught_by(Pool::new(), 2, &code), "Ljava/lang/NullPointerException;");
    // aconst_null; arraylength; pop; return
    let code = [0x01, 0xbe, 0x57, 0xb1];
    assert_eq!(caught_by(Pool::new(), 2, &code), "Ljava/lang/NullPointerException;");
    // aconst_null; athrow
    let code = [0x01, 0xbf];
    assert_eq!(caught_by(Pool::new(), 2, &code), "Ljava/lang/NullPointerException;");
}

#[test]
fn negative_array_size_raises() {
    // iconst_m1; newarray int; pop; return
    let code = [0x02, 0xbc, 10, 0x57, 0xb1];
    assert_eq!(caught_by(Pool::new(), 2, &code), "Ljava/lang/NegativeArraySizeException;");
}

#[test]
fn long_division_by_zero_raises() {
    // lconst_1; lconst_0; ldiv; pop2; return
    let code = [0x0a, 0x09, 0x6d, 0x58, 0xb1];
    assert_eq!(caught_by(Pool::new(), 4, &code), "Ljava/lang/ArithmeticException;");
    // lconst_1; lconst_0; lrem; pop2; return
    let code = [0x0a, 0x09, 0x71, 0x58, 0xb1];
    assert_eq!(caught_by(Pool::new(), 4, &code), "Ljava/lang/ArithmeticException;");
}

#[test]
fn failed_cast_raises() {
    let mut pool = Pool::new();
    let boom = pool.class("Boom");
    let other = pool.class("Other");
    // new Boom; checkcast Other; pop; return
    let code = [0xbb, hi(boom), lo(boom), 0xc0, hi(other), lo(other), 0x57, 0xb1];
    assert_eq!(caught_by(pool, 2, &code), "Ljava/lang/ClassCastException;");
}

fn interface_class(name: &str) -> Vec<u8> {
    class_file(Pool::new(), 0x0601, name, Some("java/lang/Object"), &[], &[], &[])
}

#[test]
fn casts_follow_superclasses_and_interfaces() {
    let mut pool = Pool::new();
    let sub = pool.class("Sub");
    let base = pool.class("Base");
    let shape = pool.class("Shape");
    let other = pool.class("Other");
    let object = pool.class("java/lang/Object");
    let ints = pool.class("[I");
    let objects = pool.class("[Ljava/lang/Object;");
    let code = [
        0xbb, hi(sub), lo(sub), 0x4c, // 0: new Sub; 3: astore_1
        0x2b, 0xc0, hi(base), lo(base), 0x57, // 4: aload_1; checkcast Base; pop
        0x2b, 0xc1, hi(shape), lo(shape), 0x3d, // 9: aload_1; instanceof Shape; istore_2
        0x2b, 0xc1, hi(other), lo(other), 0x3e, // 14: aload_1; instanceof Other; istore_3
        0x01, 0xc1, hi(base), lo(base), 0x36, 4, // 19: aconst_null; instanceof Base; istore 4
        0x01, 0xc0, hi(base), lo(base), 0x57, // 25: aconst_null; checkcast Base; pop
        0x04, 0xbd, hi(sub), lo(sub), 0xc1, hi(objects), lo(objects), 0x36, 5, // 30: Sub[1] instanceof Object[]
        0x04, 0xbc, 10, 0xc1, hi(objects), lo(objects), 0x36, 6, // 39: int[1] instanceof Object[]
        0x04, 0xbc, 10, 0xc1, hi(ints), lo(ints), 0x36, 7, // 47: int[1] instanceof int[]
        0x04, 0xbc, 10, 0xc1, hi(object), lo(object), 0x36, 8, // 55: int[1] instanceof Object
        0xb1, // 63: return
    ];
    let mut host = Host::new();
    host.add("Shape", interface_class("Shape"));
    host.add("Other", plain_class("Other", "java/lang/Object"));
    host.add(
        "Base",
        class_file(Pool::new(), 0x0021, "Base", Some("java/lang/Object"), &["Shape"], &[], &[]),
    );
    host.add("Sub", plain_class("Sub", "Base"));
    host.add("Main", main_class("Main", pool, 2, 9, &code, &[]));
    let mut vm = machine_for("Main");
    host.until(&mut vm, 63).unwrap();
    assert_eq!(local(&vm, 2), 1);
    assert_eq!(local(&vm, 3), 0);
    assert_eq!(local(&vm, 4), 0);
    assert_eq!(local(&vm, 5), 1);
    assert_eq!(local(&vm, 6), 0);
    assert_eq!(local(&vm, 7), 1);
    assert_eq!(local(&vm, 8), 1);
}

fn point_class(name: &str, parent: &str, fields: &[(&str, &str)]) -> Vec<u8> {
    let mut pool = Pool::new();
    let list: Vec<Member> = fields.iter().map(|(n, d)| field(&mut pool, 0, n, d)).collect();
    class_file(pool, 0x0021, name, Some(parent), &[], &list, &[])
}

#[test]
fn fields_of_the_superclass_come_first() {
    let mut pool = Pool::new();
    let cube = pool.class("Cube");
    let z = pool.field_ref("Cube", "z", "I");
    let y = pool.field_ref("Cube", "y", "J");
    let x = pool.field_ref("Cube", "x", "I");
    let code = [
        0xbb, hi(cube), lo(cube), 0x4c, // 0: new Cube; astore_1
        0x2b, 0x10, 9, 0xb5, hi(z), lo(z), // 4: aload_1; bipush 9; putfield z
        0x2b, 0x0a, 0xb5, hi(y), lo(y), // 10: aload_1; lconst_1; putfield y
        0x2b, 0x10, 4, 0xb5, hi(x), lo(x), // 15: aload_1; bipush 4; putfield x
        0x2b, 0xb4, hi(z), lo(z), 0x3d, // 21: aload_1; getfield z; istore_2
        0x2b, 0xb4, hi(y), lo(y), 0x42, // 26: aload_1; getfield y; lstore_3
        0xb1, // 31: return
    ];
    let mut host = Host::new();
    host.add("Point", point_class("Point", "java/lang/Object", &[("x", "I"), ("y", "J")]));
    host.add("Cube", point_class("Cube", "Point", &[("z", "I")]));
    host.add("Main", main_class("Main", pool, 3, 5, &code, &[]));
    let mut vm = machine_for("Main");
    host.until(&mut vm, 31).unwrap();
    assert_eq!(local(&vm, 2), 9);
    assert_eq!(local(&vm, 3), 0);
    assert_eq!(local(&vm, 4), 1);
    let object = &vm.global_memory.heap.data[local(&vm, 1) as usize];
    assert_eq!(object.field_descriptor, "LCube;");
    assert_eq!(object.data, vec![4, 0, 1, 9]);
    let area = &vm.global_memory.method_area;
    let point = area.find("Point").unwrap();
    let cube = area.find("Cube").unwrap();
    match (&area.classes[point], &area.classes[cube]) {
        (Klass::Instance(p), Klass::Instance(c)) => {
            assert_eq!(c.super_index, Some(point));
            assert_eq!(p.fields.len(), 2);
            assert_eq!(c.fields.len(), 3);
            for i in 0..p.fields.len() {
                assert_eq!(c.fields[i].field_name, p.fields[i].field_name);
                assert_eq!(c.fields[i].class_name, "Point");
                assert_eq!(c.fields[i].field_width, p.fields[i].field_width);
            }
            assert_eq!(c.fields[2].class_name, "Cube");
            assert_eq!(c.field_offset_with_strings(&"Cube".to_string(), &"z".to_string()), Ok(3));
            assert_eq!(c.field_offset_with_strings(&"Cube".to_string(), &"y".to_string()), Ok(1));
            assert_eq!(
                c.field_offset_with_strings(&"Cube".to_string(), &"w".to_string()),
                Err(VmError::NoSuchField)
            );
        }
        _ => panic!("both are classes"),
    }
}

#[test]
fn static_storage_is_as_wide_as_the_static_layout() {
    let mut pool = Pool::new();
    let fields = vec![
        field(&mut pool, STATIC, "a", "I"),
        field(&mut pool, 0, "skip", "I"),
        field(&mut pool, STATIC, "b", "D"),
        field(&mut pool, STATIC, "c", "Ljava/lang/Object;"),
    ];
    let bytes = class_file(pool, 0x0021, "S", Some("java/lang/Object"), &[], &fields, &[]);
    let mut host = Host::new();
    host.add("S", bytes);
    let mut vm = VM::new();
    vm.schedule(Task::Class("S".to_string()));
    vm.schedule(Task::Class("java/lang/Class".to_string()));
    host.finish(&mut vm).unwrap();
    let area = &vm.global_memory.method_area;
    match &area.classes[area.find("S").unwrap()] {
        Klass::Instance(k) => {
            assert!(k.is_linked());
            assert!(k.initialized);
            assert_eq!(k.static_fields.len(), 3);
            let total: usize = k.static_fields.iter().map(|f| f.field_width).sum();
            assert_eq!(total, 4);
            assert_eq!(k.static_field_values, vec![0, 0, 0, 0]);
            assert_eq!(k.static_field_offset_with_strings(&"S".to_string(), &"b".to_string()), Ok(1));
            assert_eq!(k.static_field_offset_with_strings(&"S".to_string(), &"c".to_string()), Ok(3));
            assert!(k.java_clone.is_some());
        }
        _ => panic!("S is a class"),
    }
}

#[test]
fn ensuring_a_class_again_changes_nothing() {
    let mut host = Host::new();
    host.add("C", counter_class());
    let mut vm = VM::new();
    vm.schedule(Task::Class("C".to_string()));
    vm.schedule(Task::Class("java/lang/Class".to_string()));
    host.finish(&mut vm).unwrap();
    assert_eq!(host.initializers, 0);
    let objects = vm.global_memory.heap.data.len();
    let classes = vm.global_memory.method_area.classes.len();
    let again = vm.global_memory.ensure_class("C");
    assert!(matches!(again, Ok(matebabe::memory::Ensured::Ready)));
    assert_eq!(vm.global_memory.heap.data.len(), objects);
    assert_eq!(vm.global_memory.method_area.classes.len(), classes);
    let area = &vm.global_memory.method_area;
    match &area.classes[area.find("C").unwrap()] {
        Klass::Instance(k) => assert_eq!(k.static_field_values, vec![7]),
        _ => panic!("C is a class"),
    }
}

#[test]
fn floating_point_is_done_by_the_host() {
    let mut pool = Pool::new();
    let half = pool.float_bits(0.5f32.to_bits());
    let pi = pool.double_bits(3.25f64.to_bits());
    let code = [
        0x0c, 0x12, lo(half), 0x62, 0x38, 1, // 0: fconst_1; ldc 0.5; fadd; fstore 1
        0x14, hi(pi), lo(pi), 0x0f, 0x6b, 0x8e, 0x36, 2, // 6: ldc2_w 3.25; dconst_1; dmul; d2i; istore 2
        0x10, 7, 0x87, 0x39, 3, // 14: bipush 7; i2d; dstore 3
        0x0b, 0x0c, 0x95, 0x36, 5, // 19: fconst_0; fconst_1; fcmpl; istore 5
        0xb1, // 24: return
    ];
    let mut host = Host::new();
    host.add("Main", main_class("Main", pool, 4, 6, &code, &[]));
    let mut vm = machine_for("Main");
    host.until(&mut vm, 24).unwrap();
    assert_eq!(f32::from_bits(local(&vm, 1)), 1.5);
    assert_eq!(local(&vm, 2), 3);
    let seven = ((local(&vm, 3) as u64) << 32) | local(&vm, 4) as u64;
    assert_eq!(f64::from_bits(seven), 7.0);
    assert_eq!(local(&vm, 5), 0xffff_ffff);
    assert_eq!(host.floats, 5);
}

/// The code of a switch at address 2, after `bipush key`: its operands, and
/// three branches that store 1, 2 and 3 in local variable 1, at the
/// addresses 28, 31 and 34.
fn switch_code(opcode: u8, key: u8, operands: &[i32]) -> Vec<u8> {
    let mut code = vec![0x10, key, opcode, 0];
    for word in operands {
        code.extend_from_slice(&word.to_be_bytes());
    }
    assert_eq!(code.len(), 28);
    code.extend_from_slice(&[
        0x04, 0x3c, 0xb1, // 28: iconst_1; istore_1; 30: return
        0x05, 0x3c, 0xb1, // 31: iconst_2; istore_1; 33: return
        0x06, 0x3c, 0xb1, // 34: iconst_3; istore_1; 36: return
    ]);
    code
}

/// Runs a switch and returns what its branch stored.
fn switched(opcode: u8, key: u8, operands: &[i32], end: usize) -> u32 {
    let mut host = Host::new();
    host.add(
        "Main",
        main_class("Main", Pool::new(), 1, 2, &switch_code(opcode, key, operands), &[]),
    );
    let mut vm = machine_for("Main");
    host.until(&mut vm, end).unwrap();
    local(&vm, 1)
}

#[test]
fn switches_choose_their_branch() {
    // tableswitch: default +32 (to 34), low 4, high 6, entries +26, +29, +26.
    let table = [32, 4, 6, 26, 29, 26];
    assert_eq!(switched(0xaa, 4, &table, 30), 1);
    assert_eq!(switched(0xaa, 5, &table, 33), 2);
    assert_eq!(switched(0xaa, 6, &table, 30), 1);
    assert_eq!(switched(0xaa, 7, &table, 36), 3);
    assert_eq!(switched(0xaa, 3, &table, 36), 3);
    // lookupswitch: default +32 (to 34), two pairs: 3 -> +26, 9 -> +29.
    let pairs = [32, 2, 3, 26, 9, 29];
    assert_eq!(switched(0xab, 3, &pairs, 30), 1);
    assert_eq!(switched(0xab, 9, &pairs, 33), 2);
    assert_eq!(switched(0xab, 4, &pairs, 36), 3);
}

fn native_class(name: &str, natives: &[(u16, &str, &str)]) -> Vec<u8> {
    let mut pool = Pool::new();
    let methods: Vec<Member> =
        natives.iter().map(|(access, n, d)| native_method(&mut pool, *access, n, d)).collect();
    class_file(pool, 0x0021, name, Some("java/lang/Object"), &[], &[], &methods)
}

#[test]
fn native_methods_hand_their_result_to_the_invoker() {
    let mut pool = Pool::new();
    let nano = pool.method_ref("java/lang/System", "nanoTime", "()J");
    let bits = pool.method_ref("java/lang/Double", "doubleToRawLongBits", "(D)J");
    let back = pool.method_ref("java/lang/Double", "longBitsToDouble", "(J)D");
    let raw = pool.method_ref("java/lang/Float", "floatToRawIntBits", "(F)I");
    let cores = pool.method_ref("java/lang/Runtime", "availableProcessors", "()I");
    let fence = pool.method_ref("jdk/internal/misc/Unsafe", "storeFence", "()V");
    let nan = pool.double_bits(0x7ff8_0000_dead_beef);
    let code = [
        0xb8, hi(nano), lo(nano), 0x40, // 0: invokestatic nanoTime; 3: lstore_1
        0x14, hi(nan), lo(nan), 0xb8, hi(bits), lo(bits), 0xb8, hi(back), lo(back), 0x39, 3, // 4
        0x0d, 0xb8, hi(raw), lo(raw), 0x36, 5, // 15: fconst_2; floatToRawIntBits; istore 5
        0xb8, hi(cores), lo(cores), 0x36, 6, // 21
        0xb8, hi(fence), lo(fence), // 26
        0xb1, // 29
    ];
    let mut host = Host::new();
    host.add("java/lang/System", native_class("java/lang/System", &[(STATIC, "nanoTime", "()J")]));
    host.add(
        "java/lang/Double",
        native_class(
            "java/lang/Double",
            &[(STATIC, "doubleToRawLongBits", "(D)J"), (STATIC, "longBitsToDouble", "(J)D")],
        ),
    );
    host.add(
        "java/lang/Float",
        native_class("java/lang/Float", &[(STATIC, "floatToRawIntBits", "(F)I")]),
    );
    host.add(
        "java/lang/Runtime",
        native_class("java/lang/Runtime", &[(STATIC, "availableProcessors", "()I")]),
    );
    host.add(
        "jdk/internal/misc/Unsafe",
        native_class("jdk/internal/misc/Unsafe", &[(STATIC, "storeFence", "()V")]),
    );
    host.add("Main", main_class("Main", pool, 2, 7, &code, &[]));
    let mut vm = machine_for("Main");
    host.until(&mut vm, 29).unwrap();
    let time = ((local(&vm, 1) as u64) << 32) | local(&vm, 2) as u64;
    assert_eq!(time, host.time);
    assert_eq!(local(&vm, 3), 0x7ff8_0000);
    assert_eq!(local(&vm, 4), 0xdead_beef);
    assert_eq!(local(&vm, 5), 2.0f32.to_bits());
    assert_eq!(local(&vm, 6), 1);
    host.finish(&mut vm).unwrap();
}

#[test]
fn double_bits_survive_the_round_trip() {
    for value in [0.0f64, -0.0, 1.5, f64::MAX, f64::MIN_POSITIVE, f64::INFINITY, f64::NAN] {
        let mut pool = Pool::new();
        let bits = pool.method_ref("java/lang/Double", "doubleToRawLongBits", "(D)J");
        let back = pool.method_ref("java/lang/Double", "longBitsToDouble", "(J)D");
        let constant = pool.double_bits(value.to_bits());
        let code = [
            0x14, hi(constant), lo(constant), 0xb8, hi(bits), lo(bits), 0xb8, hi(back), lo(back),
            0x48, 0xb1,
        ];
        let mut host = Host::new();
        host.add(
            "java/lang/Double",
            native_class(
                "java/lang/Double",
                &[(STATIC, "doubleToRawLongBits", "(D)J"), (STATIC, "longBitsToDouble", "(J)D")],
            ),
        );
        host.add("Main", main_class("Main", pool, 2, 3, &code, &[]));
        let mut vm = machine_for("Main");
        host.until(&mut vm, 10).unwrap();
        let got = ((local(&vm, 1) as u64) << 32) | local(&vm, 2) as u64;
        assert_eq!(got, value.to_bits());
        if !value.is_nan() {
            assert_eq!(f64::from_bits(got), value);
        }
    }
}

#[test]
fn unknown_native_method_fails() {
    let mut pool = Pool::new();
    let what = pool.method_ref("Odd", "what", "()V");
    let code = [0xb8, hi(what), lo(what), 0xb1];
    let mut host = Host::new();
    host.add("Odd", native_class("Odd", &[(STATIC, "what", "()V")]));
    host.add("Main", main_class("Main", pool, 1, 1, &code, &[]));
    let mut vm = machine_for("Main");
    assert_eq!(host.finish(&mut vm), Err(VmError::NativeMissing));
}

#[test]
fn get_class_and_class_constant_give_the_same_mirror() {
    let mut pool = Pool::new();
    let boom = pool.class("Boom");
    let get_class = pool.method_ref("java/lang/Object", "getClass", "()Ljava/lang/Class;");
    let hash = pool.method_ref("java/lang/Object", "hashCode", "()I");
    let code = [
        0xbb, hi(boom), lo(boom), 0x4c, // 0: new Boom; astore_1
        0x2b, 0xb6, hi(get_class), lo(get_class), 0x4d, // 4: aload_1; getClass; astore_2
        0x13, hi(boom), lo(boom), 0x4e, // 9: ldc_w Boom.class; astore_3
        0x2b, 0xb6, hi(hash), lo(hash), 0x36, 4, // 13: aload_1; hashCode; istore 4
        0xb1, // 19
    ];
    let mut host = Host::new();
    let mut object = Pool::new();
    let methods = vec![
        native_method(&mut object, 0x0011, "getClass", "()Ljava/lang/Class;"),
        native_method(&mut object, 0x0001, "hashCode", "()I"),
    ];
    host.add(
        "java/lang/Object",
        class_file(object, 0x0021, "java/lang/Object", None, &[], &[], &methods),
    );
    host.add("Boom", plain_class("Boom", "java/lang/Object"));
    host.add("Main", main_class("Main", pool, 1, 5, &code, &[]));
    let mut vm = machine_for("Main");
    host.until(&mut vm, 19).unwrap();
    assert_ne!(local(&vm, 2), 0);
    assert_eq!(local(&vm, 2), local(&vm, 3));
    assert_eq!(local(&vm, 4), local(&vm, 1));
    let mirror = &vm.global_memory.heap.data[local(&vm, 2) as usize];
    assert_eq!(mirror.field_descriptor, "Ljava/lang/Class;");
}

#[test]
fn array_copy_moves_elements() {
    let mut pool = Pool::new();
    let copy = pool.method_ref(
        "java/lang/System",
        "arraycopy",
        "(Ljava/lang/Object;ILjava/lang/Object;II)V",
    );
    let code = [
        0x07, 0xbc, 10, 0x4c, // 0: iconst_4; newarray int; astore_1
        0x2b, 0x03, 0x10, 10, 0x4f, // 4: a[0] = 10
        0x2b, 0x04, 0x10, 11, 0x4f, // 9: a[1] = 11
        0x2b, 0x05, 0x10, 12, 0x4f, // 14: a[2] = 12
        0x2b, 0x03, 0x2b, 0x04, 0x06, 0xb8, hi(copy), lo(copy), // 19: arraycopy(a, 0, a, 1, 3)
        0xb1, // 27
    ];
    let mut host = Host::new();
    host.add(
        "java/lang/System",
        native_class(
            "java/lang/System",
            &[(STATIC, "arraycopy", "(Ljava/lang/Object;ILjava/lang/Object;II)V")],
        ),
    );
    host.add("Main", main_class("Main", pool, 5, 2, &code, &[]));
    let mut vm = machine_for("Main");
    host.until(&mut vm, 27).unwrap();
    let array = &vm.global_memory.heap.data[local(&vm, 1) as usize];
    assert_eq!(array.data, vec![10, 10, 11, 12]);
}

#[test]
fn array_copy_outside_the_array_raises() {
    let mut pool = Pool::new();
    let copy = pool.method_ref(
        "java/lang/System",
        "arraycopy",
        "(Ljava/lang/Object;ILjava/lang/Object;II)V",
    );
    // 0: iconst_2; newarray int; astore_1; aload_1; iconst_0; aload_1; iconst_1; iconst_2;
    // arraycopy; return; handler: astore_1; return
    let code = [
        0x05, 0xbc, 10, 0x4c, 0x2b, 0x03, 0x2b, 0x04, 0x05, 0xb8, hi(copy), lo(copy), 0xb1, 0x4c,
        0xb1,
    ];
    let mut host = Host::new();
    exceptions(&mut host);
    host.add(
        "java/lang/System",
        native_class(
            "java/lang/System",
            &[(STATIC, "arraycopy", "(Ljava/lang/Object;ILjava/lang/Object;II)V")],
        ),
    );
    host.add("Main", main_class("Main", pool, 5, 2, &code, &[(0, 13, 13, 0)]));
    let mut vm = machine_for("Main");
    host.until(&mut vm, 14).unwrap();
    assert_eq!(
        vm.global_memory.heap.data[local(&vm, 1) as usize].field_descriptor,
        "Ljava/lang/ArrayIndexOutOfBoundsException;"
    );
}

#[test]
fn budget_of_run_is_kept() {
    // 0: goto 0
    let code = [0xa7, 0, 0];
    let mut host = Host::new();
    host.add("Main", main_class("Main", Pool::new(), 1, 1, &code, &[]));
    let mut vm = machine_for("Main");
    loop {
        match run(&mut vm, 50).unwrap() {
            Signal::NeedClass(name) => {
                let bytes = host.classes.get(&name).map(|b| b.as_slice());
                vm.supply_class(bytes).unwrap();
            }
            Signal::Continue => {
                if vm.threads.len() == 1 {
                    break;
                }
            }
            _ => panic!("nothing else is asked"),
        }
    }
    assert!(matches!(run(&mut vm, 1000), Ok(Signal::Continue)));
    assert!(matches!(run(&mut vm, 0), Ok(Signal::Continue)));
    assert_eq!(vm.threads[0].jvm_stack[0].instruction_counter, 0);
}

#[test]
fn boot_lists_what_is_to_be_done() {
    let vm = VM::boot("Hello".to_string());
    assert_eq!(vm.agenda.len(), 16);
    assert!(matches!(vm.agenda.last(), Some(Task::Class(name)) if name.as_str() == "java/lang/Class"));
    match &vm.agenda[0] {
        Task::Call { class, method, descriptor } => {
            assert_eq!(class, "Hello");
            assert_eq!(method, "main");
            assert_eq!(
                *descriptor,
                parse_method_descriptor("([Ljava/lang/String;)V".to_string()).unwrap()
            );
        }
        _ => panic!("the program runs last"),
    }
    assert!(matches!(&vm.agenda[1], Task::Class(name) if name.as_str() == "Hello"));
    assert!(matches!(&vm.agenda[6], Task::Array(name) if name.as_str() == "[Ljava/lang/Object;"));
}

#[test]
fn wide_and_increment() {
    // 0: bipush 40; 2: wide istore 300; 6: wide iinc 300 by 300; 12: wide iload 300;
    // 16: istore_1; 17: iinc 1 by -2; 20: return
    let code = [
        0x10, 40, 0xc4, 0x36, 0x01, 0x2c, 0xc4, 0x84, 0x01, 0x2c, 0x01, 0x2c, 0xc4, 0x15, 0x01,
        0x2c, 0x3c, 0x84, 1, 0xfe, 0xb1,
    ];
    let mut host = Host::new();
    host.add("Main", main_class("Main", Pool::new(), 1, 301, &code, &[]));
    let mut vm = machine_for("Main");
    host.until(&mut vm, 20).unwrap();
    assert_eq!(local(&vm, 300), 340);
    assert_eq!(local(&vm, 1), 338);
}

#[test]
fn interface_method_is_found_in_the_class_of_the_object() {
    let mut pool = Pool::new();
    let sub = pool.class("Sub");
    let get = pool.interface_method_ref("Shape", "get", "()I");
    // new Sub; invokeinterface Shape.get 1 0; istore_1; return
    let code = [0xbb, hi(sub), lo(sub), 0xb9, hi(get), lo(get), 1, 0, 0x3c, 0xb1];
    let mut host = Host::new();
    host.add("Shape", interface_class("Shape"));
    host.add("Sub", getter_class("Sub", "java/lang/Object", 6));
    host.add("Main", main_class("Main", pool, 1, 2, &code, &[]));
    let mut vm = machine_for("Main");
    host.until(&mut vm, 9).unwrap();
    assert_eq!(local(&vm, 1), 6);
}

#[test]
fn arguments_become_the_first_local_variables() {
    let mut pool = Pool::new();
    // static long pick(int a, long b, int c) { return b + c; }
    let pick = method(
        &mut pool,
        STATIC,
        "pick",
        "(IJI)J",
        4,
        4,
        &[0x1f, 0x1d, 0x85, 0x61, 0xad], // lload_1; iload_3; i2l; ladd; lreturn
        &[],
    );
    let call = pool.method_ref("Main", "pick", "(IJI)J");
    let big = pool.long(0x7_0000_0001);
    let code = [
        0x04, 0x14, hi(big), lo(big), 0x10, 9, 0xb8, hi(call), lo(call), 0x40, 0xb1,
    ];
    let main = method(&mut pool, 0x0009, "main", "([Ljava/lang/String;)V", 4, 3, &code, &[]);
    let bytes = class_file(pool, 0x0021, "Main", Some("java/lang/Object"), &[], &[], &[pick, main]);
    let mut host = Host::new();
    host.add("Main", bytes);
    let mut vm = machine_for("Main");
    host.until(&mut vm, 10).unwrap();
    assert_eq!(local(&vm, 1), 7);
    assert_eq!(local(&vm, 2), 10);
}

#[test]
fn instance_that_is_used_as_an_array_is_refused() {
    let mut pool = Pool::new();
    let boom = pool.class("Boom");
    // new Boom; iconst_0; iaload; pop; return
    let code = [0xbb, hi(boom), lo(boom), 0x03, 0x2e, 0x57, 0xb1];
    let mut host = Host::new();
    host.add("Boom", plain_class("Boom", "java/lang/Object"));
    host.add("Main", main_class("Main", pool, 2, 1, &code, &[]));
    let mut vm = machine_for("Main");
    assert_eq!(host.finish(&mut vm), Err(VmError::BadReference));
}

fn system_class() -> Vec<u8> {
    let mut pool = Pool::new();
    let phase = method(&mut pool, STATIC, "initPhase1", "()V", 0, 0, &[0xb1], &[]);
    class_file(pool, 0x0031, "java/lang/System", Some("java/lang/Object"), &[], &[], &[phase])
}

#[test]
fn booted_machine_runs_the_program() {
    let mut pool = Pool::new();
    let x = pool.field_ref("C", "x", "I");
    // getstatic C.x; istore_1; return
    let code = [0xb2, hi(x), lo(x), 0x3c, 0xb1];
    let mut host = Host::new();
    host.add("java/lang/String", string_class());
    host.add("java/lang/System", system_class());
    host.add("C", counter_class());
    host.add("Hello", main_class("Hello", pool, 1, 2, &code, &[]));
    let mut vm = VM::boot("Hello".to_string());
    assert_eq!(host.finish(&mut vm), Ok(()));
    assert!(vm.agenda.is_empty());
    assert_eq!(
        host.asked,
        vec!["java/lang/Class", "java/lang/Object", "java/lang/String", "java/lang/System", "Hello", "C"]
    );
    let area = &vm.global_memory.method_area;
    for name in ["[Z", "[B", "[S", "[C", "[I", "[J", "[F", "[D", "[Ljava/lang/Object;"] {
        assert!(matches!(area.classes[area.find(name).unwrap()], Klass::Array(_)), "{}", name);
    }
    for name in ["java/lang/Class", "java/lang/Object", "java/lang/String", "java/lang/System", "Hello", "C"] {
        assert!(area.classes[area.find(name).unwrap()].is_initialized(), "{}", name);
    }
    match &area.classes[area.find("C").unwrap()] {
        Klass::Instance(k) => assert_eq!(k.static_field_values, vec![7]),
        _ => panic!("C is a class"),
    }
}

#[test]
fn natives_of_the_class_library() {
    let mut pool = Pool::new();
    let point = pool.class("Point");
    let unsafe_class = pool.class("jdk/internal/misc/Unsafe");
    let name_of = pool.method_ref("java/lang/Class", "initClassName", "()Ljava/lang/String;");
    let primitive = pool.method_ref(
        "java/lang/Class",
        "getPrimitiveClass",
        "(Ljava/lang/String;)Ljava/lang/Class;",
    );
    let offset = pool.method_ref(
        "jdk/internal/misc/Unsafe",
        "objectFieldOffset1",
        "(Ljava/lang/Class;Ljava/lang/String;)J",
    );
    let int_name = pool.string("int");
    let y_name = pool.string("y");
    let integer = pool.class("java/lang/Integer");
    let code = [
        0x13, hi(point), lo(point), // 0: ldc_w Point.class
        0xb6, hi(name_of), lo(name_of), // 3: invokevirtual initClassName
        0x4c, // 6: astore_1
        0x12, lo(int_name), // 7: ldc "int"
        0xb8, hi(primitive), lo(primitive), // 9: invokestatic getPrimitiveClass
        0x4d, // 12: astore_2
        0x13, hi(integer), lo(integer), // 13: ldc_w Integer.class
        0x4e, // 16: astore_3
        0xbb, hi(unsafe_class), lo(unsafe_class), // 17: new Unsafe
        0x13, hi(point), lo(point), // 20: ldc_w Point.class
        0x12, lo(y_name), // 23: ldc "y"
        0xb6, hi(offset), lo(offset), // 25: invokevirtual objectFieldOffset1
        0x37, 4, // 28: lstore 4
        0xb1, // 30: return
    ];
    let mut host = Host::new();
    host.add("java/lang/String", string_class());
    host.add("java/lang/Integer", plain_class("java/lang/Integer", "java/lang/Object"));
    host.add("Point", point_class("Point", "java/lang/Object", &[("x", "J"), ("y", "I")]));
    let mut class = Pool::new();
    let methods = vec![
        native_method(&mut class, 0x0001, "initClassName", "()Ljava/lang/String;"),
        native_method(
            &mut class,
            STATIC,
            "getPrimitiveClass",
            "(Ljava/lang/String;)Ljava/lang/Class;",
        ),
    ];
    host.add(
        "java/lang/Class",
        class_file(class, 0x0031, "java/lang/Class", Some("java/lang/Object"), &[], &[], &methods),
    );
    host.add(
        "jdk/internal/misc/Unsafe",
        native_class(
            "jdk/internal/misc/Unsafe",
            &[(0x0001, "objectFieldOffset1", "(Ljava/lang/Class;Ljava/lang/String;)J")],
        ),
    );
    host.add("Main", main_class("Main", pool, 3, 6, &code, &[]));
    let mut vm = machine_for("Main");
    host.until(&mut vm, 30).unwrap();
    assert_eq!(
        matebabe::strings::string_from_java_string(&vm.global_memory, local(&vm, 1)),
        Ok("Point".to_string())
    );
    assert_ne!(local(&vm, 2), 0);
    assert_eq!(local(&vm, 2), local(&vm, 3));
    assert_eq!(local(&vm, 4), 0);
    assert_eq!(local(&vm, 5), 2);
    host.finish(&mut vm).unwrap();
}
