//! Field and method descriptors: the compact texts by which class files name
//! types, and the trees they are parsed into.
//!
//! `FieldType := 'B'|'C'|'D'|'F'|'I'|'J'|'S'|'Z' | 'L' ClassName ';' | '[' FieldType`
//! and a method descriptor is `'(' FieldType* ')' (FieldType | 'V')`.

use vstd::prelude::*;
use vstd::string::*;

use crate::error::VmError;

verus! {

/// The type of a field, a parameter, a result or an array element.
#[derive(Debug, PartialEq)]
pub enum FieldType {
    Integer,
    Boolean,
    Byte,
    Char,
    LongInteger,
    Float,
    Double,
    Short,
    ClassInstance(String),
    Array(Box<FieldType>),
}

/// The descriptor of a field: its type.
#[derive(Debug, Clone)]
pub struct FieldDescriptor {
    pub field_type: FieldType,
}

/// The descriptor of a method: the types of its parameters, and its result.
#[derive(Debug, Clone, PartialEq)]
pub struct MethodDescriptor {
    pub parameter_descriptors: Vec<FieldType>,
    pub return_descriptor: ReturnDescriptor,
}

/// The result of a method: a type, or `void`.
#[derive(Debug, Clone, PartialEq)]
pub enum ReturnDescriptor {
    FieldType(FieldType),
    VoidDescriptor,
}

/// The mathematical content of a [`MethodDescriptor`]: the descriptor text of
/// each parameter, and that of the result, `None` for `void`.
pub struct MethodDescriptorView {
    pub parameters: Seq<Seq<char>>,
    pub result: Option<Seq<char>>,
}

impl FieldType {
    /// The descriptor text that denotes this type.
    pub open spec fn text(self) -> Seq<char>
        decreases self,
    {
        match self {
            FieldType::Integer => seq!['I'],
            FieldType::Boolean => seq!['Z'],
            FieldType::Byte => seq!['B'],
            FieldType::Char => seq!['C'],
            FieldType::LongInteger => seq!['J'],
            FieldType::Float => seq!['F'],
            FieldType::Double => seq!['D'],
            FieldType::Short => seq!['S'],
            FieldType::ClassInstance(name) => seq!['L'] + name@ + seq![';'],
            FieldType::Array(element) => seq!['['] + element.text(),
        }
    }

    /// No class name in the type holds a `;`, so that the text has one
    /// reading.
    pub open spec fn wf(self) -> bool
        decreases self,
    {
        match self {
            FieldType::ClassInstance(name) => !name@.contains(';'),
            FieldType::Array(element) => element.wf(),
            _ => true,
        }
    }

    /// The number of cells that a value of this type takes: 2 for the
    /// category-2 types `long` and `double`, 1 for every other.
    pub open spec fn spec_width(&self) -> nat {
        match *self {
            FieldType::LongInteger | FieldType::Double => 2,
            _ => 1,
        }
    }

    /// The number of cells that a value of this type takes.
    pub fn width(&self) -> (r: usize)
        ensures
            r == self.spec_width(),
            1 <= r <= 2,
    {
        match self {
            FieldType::LongInteger => 2,
            FieldType::Double => 2,
            _ => 1,
        }
    }

    /// The class name, where the type is a class.
    pub fn as_class_instance(&self) -> (r: Option<&String>)
        ensures
            match *self {
                FieldType::ClassInstance(name) => r == Some(&name),
                _ => r is None,
            },
    {
        if let Self::ClassInstance(v) = self {
            Some(v)
        } else {
            None
        }
    }

    /// The element type, where the type is an array.
    pub fn as_array(&self) -> (r: Option<&FieldType>)
        ensures
            match *self {
                FieldType::Array(element) => r == Some(&*element),
                _ => r is None,
            },
    {
        if let Self::Array(v) = self {
            Some(&**v)
        } else {
            None
        }
    }
}

/// A copy of a field type.
pub fn copy_field_type(t: &FieldType) -> (r: FieldType)
    ensures
        r == *t,
    decreases *t,
{
    match t {
        FieldType::Integer => FieldType::Integer,
        FieldType::Boolean => FieldType::Boolean,
        FieldType::Byte => FieldType::Byte,
        FieldType::Char => FieldType::Char,
        FieldType::LongInteger => FieldType::LongInteger,
        FieldType::Float => FieldType::Float,
        FieldType::Double => FieldType::Double,
        FieldType::Short => FieldType::Short,
        FieldType::ClassInstance(name) => FieldType::ClassInstance(name.clone()),
        FieldType::Array(element) => FieldType::Array(Box::new(copy_field_type(&**element))),
    }
}

impl Clone for FieldType {
    fn clone(&self) -> (r: Self)
        ensures
            r == *self,
    {
        copy_field_type(self)
    }
}

impl View for FieldType {
    type V = Seq<char>;

    open spec fn view(&self) -> Seq<char> {
        self.text()
    }
}

impl View for ReturnDescriptor {
    type V = Option<Seq<char>>;

    open spec fn view(&self) -> Option<Seq<char>> {
        match *self {
            ReturnDescriptor::FieldType(t) => Some(t.text()),
            ReturnDescriptor::VoidDescriptor => None,
        }
    }
}

/// The descriptor texts of a sequence of types.
pub open spec fn texts(types: Seq<FieldType>) -> Seq<Seq<char>> {
    Seq::new(types.len(), |i: int| types[i].text())
}

impl View for MethodDescriptor {
    type V = MethodDescriptorView;

    open spec fn view(&self) -> MethodDescriptorView {
        MethodDescriptorView {
            parameters: texts(self.parameter_descriptors@),
            result: self.return_descriptor@,
        }
    }
}

impl MethodDescriptor {
    /// Every type in the descriptor is well-formed.
    pub open spec fn wf(&self) -> bool {
        &&& forall|i: int|
            0 <= i < self.parameter_descriptors@.len() ==> (
            #[trigger] self.parameter_descriptors@[i]).wf()
        &&& match self.return_descriptor {
            ReturnDescriptor::FieldType(t) => t.wf(),
            ReturnDescriptor::VoidDescriptor => true,
        }
    }
}

/// Whether `c` is one of the eight letters that denote a primitive type.
pub open spec fn is_primitive_letter(c: char) -> bool {
    c == 'B' || c == 'C' || c == 'D' || c == 'F' || c == 'I' || c == 'J' || c == 'S' || c == 'Z'
}

/// The position of the first `;` at or after `from`.
pub open spec fn first_semicolon(s: Seq<char>, from: int) -> Option<int>
    decreases s.len() - from,
{
    if from < 0 || from >= s.len() {
        None
    } else if s[from] == ';' {
        Some(from)
    } else {
        first_semicolon(s, from + 1)
    }
}

/// The position after the field type that starts at `at`; `None` where no
/// field type starts there: the text ends, the first character is none of
/// the grammar's, or a class name has no closing `;`.
pub open spec fn field_type_end(s: Seq<char>, at: int) -> Option<int>
    decreases s.len() - at,
{
    if at < 0 || at >= s.len() {
        None
    } else if is_primitive_letter(s[at]) {
        Some(at + 1)
    } else if s[at] == 'L' {
        match first_semicolon(s, at + 1) {
            Some(close) => Some(close + 1),
            None => None,
        }
    } else if s[at] == '[' {
        field_type_end(s, at + 1)
    } else {
        None
    }
}

/// The texts of the parameter types that start at `at`, up to the closing
/// parenthesis, and the position of that parenthesis.
pub open spec fn spec_parameters(s: Seq<char>, at: int) -> Option<(Seq<Seq<char>>, int)>
    decreases s.len() - at,
{
    if at < 0 || at >= s.len() {
        None
    } else if s[at] == ')' {
        Some((Seq::empty(), at))
    } else {
        match field_type_end(s, at) {
            None => None,
            Some(end) => if end <= at || end > s.len() {
                None
            } else {
                match spec_parameters(s, end) {
                    None => None,
                    Some((rest, close)) => Some((seq![s.subrange(at, end)] + rest, close)),
                }
            },
        }
    }
}

/// What a method descriptor text denotes; `None` where it does not follow
/// the grammar. Characters after the result type are not looked at.
pub open spec fn spec_method_descriptor(s: Seq<char>) -> Option<MethodDescriptorView> {
    if s.len() == 0 || s[0] != '(' {
        None
    } else {
        match spec_parameters(s, 1) {
            None => None,
            Some((parameters, close)) => if close + 1 < s.len() && s[close + 1] == 'V' {
                Some(MethodDescriptorView { parameters, result: None })
            } else {
                match field_type_end(s, close + 1) {
                    None => None,
                    Some(end) => Some(
                        MethodDescriptorView {
                            parameters,
                            result: Some(s.subrange(close + 1, end)),
                        },
                    ),
                }
            },
        }
    }
}

proof fn lemma_first_semicolon(s: Seq<char>, from: int)
    ensures
        match first_semicolon(s, from) {
            Some(close) => {
                &&& from <= close < s.len()
                &&& s[close] == ';'
                &&& forall|k: int| from <= k < close ==> s[k] != ';'
            },
            None => true,
        },
    decreases s.len() - from,
{
    if from < 0 || from >= s.len() {
    } else if s[from] == ';' {
    } else {
        lemma_first_semicolon(s, from + 1);
    }
}

/// A field type that is found ends after where it starts, and within the
/// text.
pub proof fn lemma_field_type_end(s: Seq<char>, at: int)
    ensures
        match field_type_end(s, at) {
            Some(end) => 0 <= at < end <= s.len(),
            None => true,
        },
    decreases s.len() - at,
{
    if at < 0 || at >= s.len() {
    } else if is_primitive_letter(s[at]) {
    } else if s[at] == 'L' {
        lemma_first_semicolon(s, at + 1);
    } else if s[at] == '[' {
        lemma_field_type_end(s, at + 1);
    }
}

/// Parses the field type that starts at character `at` of `s`; returns it
/// with the position after it.
pub fn parse_field_type(s: &str, at: usize) -> (r: Result<(FieldType, usize), VmError>)
    ensures
        match field_type_end(s@, at as int) {
            Some(end) => {
                &&& r is Ok
                &&& r->Ok_0.0@ == s@.subrange(at as int, end)
                &&& r->Ok_0.0.wf()
                &&& r->Ok_0.1 == end
            },
            None => r == Err::<(FieldType, usize), VmError>(VmError::Descriptor),
        },
{
    let n = s.unicode_len();
    if at >= n {
        return Err(VmError::Descriptor);
    }
    // The array dimensions in front of the base type.
    let mut pos: usize = at;
    while pos < n && s.get_char(pos) == '['
        invariant
            at <= pos <= n,
            n == s@.len(),
            forall|k: int| at <= k < pos ==> s@[k] == '[',
            field_type_end(s@, at as int) == field_type_end(s@, pos as int),
        decreases n - pos,
    {
        pos = pos + 1;
    }
    if pos >= n {
        return Err(VmError::Descriptor);
    }
    let c = s.get_char(pos);
    let (base, end): (FieldType, usize) = if c == 'I' {
        (FieldType::Integer, pos + 1)
    } else if c == 'J' {
        (FieldType::LongInteger, pos + 1)
    } else if c == 'Z' {
        (FieldType::Boolean, pos + 1)
    } else if c == 'B' {
        (FieldType::Byte, pos + 1)
    } else if c == 'C' {
        (FieldType::Char, pos + 1)
    } else if c == 'S' {
        (FieldType::Short, pos + 1)
    } else if c == 'D' {
        (FieldType::Double, pos + 1)
    } else if c == 'F' {
        (FieldType::Float, pos + 1)
    } else if c == 'L' {
        let mut close: usize = pos + 1;
        while close < n && s.get_char(close) != ';'
            invariant
                pos + 1 <= close <= n,
                n == s@.len(),
                forall|k: int| pos + 1 <= k < close ==> s@[k] != ';',
                first_semicolon(s@, pos + 1) == first_semicolon(s@, close as int),
            decreases n - close,
        {
            close = close + 1;
        }
        if close >= n {
            return Err(VmError::Descriptor);
        }
        let name = s.substring_char(pos + 1, close).to_owned();
        assert(seq!['L'] + name@ + seq![';'] =~= s@.subrange(pos as int, close + 1));
        (FieldType::ClassInstance(name), close + 1)
    } else {
        return Err(VmError::Descriptor);
    };
    assert(base@ =~= s@.subrange(pos as int, end as int));
    let mut result = base;
    let mut start: usize = pos;
    while start > at
        invariant
            at <= start <= pos < end <= n,
            n == s@.len(),
            forall|k: int| at <= k < pos ==> s@[k] == '[',
            result@ == s@.subrange(start as int, end as int),
            result.wf(),
        decreases start,
    {
        let ghost inner = result@;
        result = FieldType::Array(Box::new(result));
        start = start - 1;
        assert(seq!['['] + inner =~= s@.subrange(start as int, end as int));
    }
    Ok((result, end))
}

/// Parses a field descriptor: the field type at the start of the text.
/// Characters after it are not looked at.
///
/// Fails with `Descriptor`, and only then, where no field type starts the
/// text.
pub fn parse_field_descriptor(field_descriptor: &String) -> (r: Result<FieldDescriptor, VmError>)
    ensures
        match field_type_end(field_descriptor@, 0) {
            Some(end) => {
                &&& r is Ok
                &&& r->Ok_0.field_type@ == field_descriptor@.subrange(0, end)
                &&& r->Ok_0.field_type.wf()
            },
            None => r == Err::<FieldDescriptor, VmError>(VmError::Descriptor),
        },
{
    match parse_field_type(field_descriptor.as_str(), 0) {
        Ok((field_type, _)) => Ok(FieldDescriptor { field_type }),
        Err(e) => Err(e),
    }
}

/// Parses a method descriptor. Characters after the result type are not
/// looked at.
///
/// Fails with `Descriptor`, and only then, where the text does not follow
/// the grammar `'(' FieldType* ')' (FieldType | 'V')`.
pub fn parse_method_descriptor(method_descriptor: String) -> (r: Result<MethodDescriptor, VmError>)
    ensures
        match spec_method_descriptor(method_descriptor@) {
            Some(shape) => r is Ok && r->Ok_0@ == shape && r->Ok_0.wf(),
            None => r == Err::<MethodDescriptor, VmError>(VmError::Descriptor),
        },
{
    let s = method_descriptor.as_str();
    let n = s.unicode_len();
    if n == 0 || s.get_char(0) != '(' {
        return Err(VmError::Descriptor);
    }
    let mut parameter_descriptors: Vec<FieldType> = Vec::new();
    let mut pos: usize = 1;
    loop
        invariant_except_break
            1 <= pos <= n,
            n == s@.len(),
            s@ == method_descriptor@,
            s@[0] == '(',
            forall|i: int|
                0 <= i < parameter_descriptors@.len() ==> (
                #[trigger] parameter_descriptors@[i]).wf(),
            spec_parameters(s@, 1) == match spec_parameters(s@, pos as int) {
                Some((rest, close)) => Some((texts(parameter_descriptors@) + rest, close)),
                None => None,
            },
        ensures
            1 <= pos < n,
            n == s@.len(),
            s@[0] == '(',
            forall|i: int|
                0 <= i < parameter_descriptors@.len() ==> (
                #[trigger] parameter_descriptors@[i]).wf(),
            spec_parameters(s@, 1) == Some((texts(parameter_descriptors@), pos as int)),
        decreases n - pos,
    {
        if pos >= n {
            return Err(VmError::Descriptor);
        }
        if s.get_char(pos) == ')' {
            assert(texts(parameter_descriptors@) + Seq::<Seq<char>>::empty() =~= texts(
                parameter_descriptors@,
            ));
            break ;
        }
        let ghost before = parameter_descriptors@;
        let (field_type, next) = match parse_field_type(s, pos) {
            Ok(pair) => pair,
            Err(_) => { return Err(VmError::Descriptor); },
        };
        proof {
            lemma_field_type_end(s@, pos as int);
        }
        let ghost first = field_type@;
        parameter_descriptors.push(field_type);
        proof {
            assert(texts(parameter_descriptors@) =~= texts(before).push(first));
            match spec_parameters(s@, next as int) {
                Some((rest, close)) => {
                    assert(texts(parameter_descriptors@) + rest =~= texts(before) + (seq![first]
                        + rest));
                },
                None => {},
            }
        }
        pos = next;
    }
    let return_descriptor = if pos + 1 < n && s.get_char(pos + 1) == 'V' {
        ReturnDescriptor::VoidDescriptor
    } else {
        match parse_field_type(s, pos + 1) {
            Ok((field_type, _)) => ReturnDescriptor::FieldType(field_type),
            Err(_) => { return Err(VmError::Descriptor); },
        }
    };
    Ok(MethodDescriptor { parameter_descriptors, return_descriptor })
}

/// The first character of a descriptor text says which kind of type it
/// denotes.
pub proof fn lemma_text_head(t: FieldType)
    ensures
        t.text().len() >= 1,
        t.text()[0] == match t {
            FieldType::Integer => 'I',
            FieldType::Boolean => 'Z',
            FieldType::Byte => 'B',
            FieldType::Char => 'C',
            FieldType::LongInteger => 'J',
            FieldType::Float => 'F',
            FieldType::Double => 'D',
            FieldType::Short => 'S',
            FieldType::ClassInstance(_) => 'L',
            FieldType::Array(_) => '[',
        },
{
}

/// Whether two types are the same type: whether their descriptor texts are
/// equal.
pub fn same_type(a: &FieldType, b: &FieldType) -> (r: bool)
    ensures
        r == (a@ == b@),
    decreases *a,
{
    proof {
        lemma_text_head(*a);
        lemma_text_head(*b);
    }
    match a {
        FieldType::Integer => match b {
            FieldType::Integer => true,
            _ => false,
        },
        FieldType::Boolean => match b {
            FieldType::Boolean => true,
            _ => false,
        },
        FieldType::Byte => match b {
            FieldType::Byte => true,
            _ => false,
        },
        FieldType::Char => match b {
            FieldType::Char => true,
            _ => false,
        },
        FieldType::LongInteger => match b {
            FieldType::LongInteger => true,
            _ => false,
        },
        FieldType::Float => match b {
            FieldType::Float => true,
            _ => false,
        },
        FieldType::Double => match b {
            FieldType::Double => true,
            _ => false,
        },
        FieldType::Short => match b {
            FieldType::Short => true,
            _ => false,
        },
        FieldType::ClassInstance(x) => match b {
            FieldType::ClassInstance(y) => {
                proof {
                    if a@ == b@ {
                        assert(x@ =~= a@.subrange(1, a@.len() - 1));
                        assert(y@ =~= b@.subrange(1, b@.len() - 1));
                    }
                }
                *x == *y
            },
            _ => false,
        },
        FieldType::Array(x) => match b {
            FieldType::Array(y) => {
                proof {
                    if a@ == b@ {
                        assert(x.text() =~= a@.subrange(1, a@.len() as int));
                        assert(y.text() =~= b@.subrange(1, b@.len() as int));
                    }
                }
                same_type(&**x, &**y)
            },
            _ => false,
        },
    }
}

/// Whether two method descriptors are the same: the same parameter types in
/// the same order, and the same result.
pub fn same_descriptor(a: &MethodDescriptor, b: &MethodDescriptor) -> (r: bool)
    ensures
        r == (a@ == b@),
{
    if a.parameter_descriptors.len() != b.parameter_descriptors.len() {
        assert(a@.parameters.len() != b@.parameters.len());
        return false;
    }
    let mut i: usize = 0;
    while i < a.parameter_descriptors.len()
        invariant
            i <= a.parameter_descriptors.len(),
            a.parameter_descriptors.len() == b.parameter_descriptors.len(),
            forall|k: int|
                0 <= k < i ==> (#[trigger] a.parameter_descriptors@[k]).text()
                    == b.parameter_descriptors@[k].text(),
        decreases a.parameter_descriptors.len() - i,
    {
        if !same_type(&a.parameter_descriptors[i], &b.parameter_descriptors[i]) {
            assert(a@.parameters[i as int] != b@.parameters[i as int]);
            return false;
        }
        i = i + 1;
    }
    assert(a@.parameters =~= b@.parameters);
    match &a.return_descriptor {
        ReturnDescriptor::VoidDescriptor => match &b.return_descriptor {
            ReturnDescriptor::VoidDescriptor => true,
            ReturnDescriptor::FieldType(_) => false,
        },
        ReturnDescriptor::FieldType(x) => match &b.return_descriptor {
            ReturnDescriptor::VoidDescriptor => false,
            ReturnDescriptor::FieldType(y) => same_type(x, y),
        },
    }
}

/// The number of cells that the arguments of a method take: the sum of the
/// widths of its parameter types.
pub open spec fn argument_cells(parameters: Seq<FieldType>) -> nat
    decreases parameters.len(),
{
    if parameters.len() == 0 {
        0
    } else {
        argument_cells(parameters.drop_last()) + parameters.last().spec_width()
    }
}

impl MethodDescriptor {
    /// The number of cells that the arguments take, if the machine can
    /// count them.
    pub fn argument_width(&self) -> (r: Option<usize>)
        ensures
            r == if argument_cells(self.parameter_descriptors@) <= usize::MAX {
                Some(argument_cells(self.parameter_descriptors@) as usize)
            } else {
                None
            },
    {
        let mut total: usize = 0;
        let mut i: usize = 0;
        while i < self.parameter_descriptors.len()
            invariant
                i <= self.parameter_descriptors.len(),
                total == argument_cells(self.parameter_descriptors@.subrange(0, i as int)),
                total <= 2 * i,
            decreases self.parameter_descriptors.len() - i,
        {
            proof {
                assert(self.parameter_descriptors@.subrange(0, i + 1).drop_last()
                    =~= self.parameter_descriptors@.subrange(0, i as int));
            }
            let w = self.parameter_descriptors[i].width();
            if total > usize::MAX - w {
                proof {
                    lemma_argument_cells_prefix(self.parameter_descriptors@, i + 1);
                }
                return None;
            }
            total = total + w;
            i = i + 1;
        }
        assert(self.parameter_descriptors@.subrange(0, i as int) =~= self.parameter_descriptors@);
        Some(total)
    }
}

/// The arguments of the first `n` parameters take no more cells than those
/// of all.
pub proof fn lemma_argument_cells_prefix(parameters: Seq<FieldType>, n: int)
    requires
        0 <= n <= parameters.len(),
    ensures
        argument_cells(parameters.subrange(0, n)) <= argument_cells(parameters),
    decreases parameters.len() - n,
{
    if n == parameters.len() {
        assert(parameters.subrange(0, n) =~= parameters);
    } else {
        lemma_argument_cells_prefix(parameters, n + 1);
        assert(parameters.subrange(0, n + 1).drop_last() =~= parameters.subrange(0, n));
    }
}

/// Two types with the same descriptor text are of the same kind, and agree
/// in what they name.
pub proof fn lemma_same_text(a: FieldType, b: FieldType)
    requires
        a.text() == b.text(),
    ensures
        match (a, b) {
            (FieldType::ClassInstance(x), FieldType::ClassInstance(y)) => x@ == y@,
            (FieldType::Array(x), FieldType::Array(y)) => x.text() == y.text(),
            (FieldType::ClassInstance(_), _) => false,
            (_, FieldType::ClassInstance(_)) => false,
            (FieldType::Array(_), _) => false,
            (_, FieldType::Array(_)) => false,
            _ => true,
        },
{
    lemma_text_head(a);
    lemma_text_head(b);
    match (a, b) {
        (FieldType::ClassInstance(x), FieldType::ClassInstance(y)) => {
            assert(x@ =~= a.text().subrange(1, a.text().len() - 1));
            assert(y@ =~= b.text().subrange(1, b.text().len() - 1));
        },
        (FieldType::Array(x), FieldType::Array(y)) => {
            assert(x.text() =~= a.text().subrange(1, a.text().len() as int));
            assert(y.text() =~= b.text().subrange(1, b.text().len() as int));
        },
        _ => {},
    }
}

/// A type with the descriptor text `text`.
pub open spec fn type_with_text(text: Seq<char>) -> FieldType {
    choose|t: FieldType| t.text() == text
}

} // verus!
