//! The static catalog of node types and the per-object payload each of them
//! keeps, with its byte encoding for persistence.

use vstd::prelude::*;
use vstd::utf8::*;
use vstd::string::*;

verus! {

/// Why a mutation or a load of the graph was refused.
#[derive(Clone, Copy, Debug, PartialEq, Eq, Structural)]
pub enum GraphConsistencyError {
    /// A type name that the catalog does not hold.
    UnknownType,
    /// An index that points past the end of its array.
    BadIndex,
    /// A stored payload that its type cannot read back.
    BadPayload,
    /// A stored frame smaller than the smallest frame.
    BadSize,
    /// A reference to an entity that no longer exists.
    MissingEntity,
}

/// The node types of the catalog.
#[derive(Clone, Copy, Debug, PartialEq, Eq, Structural)]
pub enum TypeKind {
    Process,
    Text,
    Empty,
}

/// The runtime payload of an object, one shape per type.
#[derive(Debug)]
pub enum Payload {
    Process,
    Text(String),
    Empty,
}

/// What a payload holds, as plain values.
pub enum PayloadModel {
    Process,
    Text(Seq<char>),
    Empty,
}

impl View for Payload {
    type V = PayloadModel;

    open spec fn view(&self) -> PayloadModel {
        match self {
            Payload::Process => PayloadModel::Process,
            Payload::Text(s) => PayloadModel::Text(s@),
            Payload::Empty => PayloadModel::Empty,
        }
    }
}

/// The type whose payload shape `p` has.
pub open spec fn payload_kind(p: PayloadModel) -> TypeKind {
    match p {
        PayloadModel::Process => TypeKind::Process,
        PayloadModel::Text(_) => TypeKind::Text,
        PayloadModel::Empty => TypeKind::Empty,
    }
}

/// The payload a new object of type `t` starts with.
pub open spec fn spec_init(t: TypeKind) -> PayloadModel {
    match t {
        TypeKind::Process => PayloadModel::Process,
        TypeKind::Text => PayloadModel::Text(Seq::empty()),
        TypeKind::Empty => PayloadModel::Empty,
    }
}

/// The stored bytes of a payload: the UTF-8 encoding of a text, nothing otherwise.
pub open spec fn spec_serialize(p: PayloadModel) -> Seq<u8> {
    match p {
        PayloadModel::Text(s) => encode_utf8(s),
        _ => Seq::empty(),
    }
}

/// Whether type `t` can read back `data`.
pub open spec fn deserializable(t: TypeKind, data: Seq<u8>) -> bool {
    t == TypeKind::Text ==> valid_utf8(data)
}

/// The payload that type `t` reads back from `data`; a process starts afresh.
pub open spec fn spec_deserialize(t: TypeKind, data: Seq<u8>) -> PayloadModel {
    match t {
        TypeKind::Text => PayloadModel::Text(decode_utf8(data)),
        TypeKind::Process => PayloadModel::Process,
        TypeKind::Empty => PayloadModel::Empty,
    }
}

/// The number of parameter slots of each type.
pub open spec fn spec_param_count(t: TypeKind) -> nat {
    match t {
        TypeKind::Process => 4,
        _ => 0,
    }
}

/// The names of the parameter slots of a process: what to run, its
/// arguments, its input and its output.
pub open spec fn spec_param_name(i: int) -> Seq<char> {
    if i == 0 {
        "Command"@
    } else if i == 1 {
        "Arguments"@
    } else if i == 2 {
        "Input"@
    } else {
        "Output"@
    }
}

/// All types of the catalog, in the order that menus offer them.
pub open spec fn spec_catalog() -> Seq<TypeKind> {
    seq![TypeKind::Process, TypeKind::Text, TypeKind::Empty]
}

impl TypeKind {
    /// The name under which the type is stored and offered.
    pub fn name(&self) -> (r: &'static str)
        ensures
            r@ == spec_type_name(*self),
    {
        match self {
            TypeKind::Process => "Process",
            TypeKind::Text => "Text",
            TypeKind::Empty => "Empty",
        }
    }

    /// The number of parameter slots of the type.
    pub fn param_count(&self) -> (r: usize)
        ensures
            r == spec_param_count(*self),
    {
        match self {
            TypeKind::Process => 4,
            _ => 0,
        }
    }

    /// The name of parameter slot `i`.
    pub fn param_name(&self, i: usize) -> (r: &'static str)
        requires
            i < spec_param_count(*self),
        ensures
            r@ == spec_param_name(i as int),
    {
        if i == 0 {
            "Command"
        } else if i == 1 {
            "Arguments"
        } else if i == 2 {
            "Input"
        } else {
            "Output"
        }
    }

    /// Whether parameter slot `i` carries the type's result rather than an input.
    pub fn param_is_output(&self, i: usize) -> (r: bool)
        requires
            i < spec_param_count(*self),
        ensures
            r == (*self == TypeKind::Process && i == 3),
    {
        match self {
            TypeKind::Process => i == 3,
            _ => false,
        }
    }

    /// The payload that a new object of this type starts with.
    pub fn init(&self) -> (r: Payload)
        ensures
            r@ == spec_init(*self),
    {
        match self {
            TypeKind::Process => Payload::Process,
            TypeKind::Text => Payload::Text(String::new()),
            TypeKind::Empty => Payload::Empty,
        }
    }

    /// Reads a payload of this type back from its stored bytes.
    pub fn deserialize(&self, data: &Vec<u8>) -> (r: Result<Payload, GraphConsistencyError>)
        ensures
            r is Ok <==> deserializable(*self, data@),
            r matches Ok(p) ==> p@ == spec_deserialize(*self, data@),
            r matches Err(e) ==> e == GraphConsistencyError::BadPayload,
    {
        match self {
            TypeKind::Text => match string_from_utf8(data) {
                Some(s) => Ok(Payload::Text(s)),
                None => Err(GraphConsistencyError::BadPayload),
            },
            TypeKind::Process => Ok(Payload::Process),
            TypeKind::Empty => Ok(Payload::Empty),
        }
    }
}

pub open spec fn spec_type_name(t: TypeKind) -> Seq<char> {
    match t {
        TypeKind::Process => "Process"@,
        TypeKind::Text => "Text"@,
        TypeKind::Empty => "Empty"@,
    }
}

/// Relies on `String::from_utf8`: `Ok` exactly when the bytes are valid UTF-8,
/// and then the string that they encode.
#[verifier::external_body]
fn string_from_utf8(data: &Vec<u8>) -> (r: Option<String>)
    ensures
        r is Some <==> valid_utf8(data@),
        r matches Some(s) ==> s@ == decode_utf8(data@),
{
    String::from_utf8(data.clone()).ok()
}

impl Payload {
    /// The type whose payload this is.
    pub fn kind(&self) -> (r: TypeKind)
        ensures
            r == payload_kind(self@),
    {
        match self {
            Payload::Process => TypeKind::Process,
            Payload::Text(_) => TypeKind::Text,
            Payload::Empty => TypeKind::Empty,
        }
    }

    /// The bytes under which the payload is stored.
    pub fn serialize(&self) -> (r: Vec<u8>)
        ensures
            r@ == spec_serialize(self@),
    {
        match self {
            Payload::Text(s) => s.as_str().as_bytes_vec(),
            _ => Vec::new(),
        }
    }
}

/// What typing `key` does to a payload: a text takes a one-character key as a
/// new last character and loses its last character on `Backspace`; other
/// payloads ignore keys.
pub open spec fn spec_type_key(p: PayloadModel, key: Seq<char>) -> PayloadModel {
    match p {
        PayloadModel::Text(s) => if key.len() == 1 {
            PayloadModel::Text(s.push(key[0]))
        } else if key == "Backspace"@ && s.len() > 0 {
            PayloadModel::Text(s.drop_last())
        } else {
            PayloadModel::Text(s)
        },
        _ => p,
    }
}

/// Relies on `String::push`: appends one character.
#[verifier::external_body]
pub(crate) fn string_push(s: &mut String, c: char)
    ensures
        final(s)@ == old(s)@.push(c),
{
    s.push(c)
}

/// Relies on `String::pop`: removes and returns the last character, or
/// returns `None` on an empty string.
#[verifier::external_body]
fn string_pop(s: &mut String) -> (r: Option<char>)
    ensures
        old(s)@.len() == 0 ==> r is None && final(s)@ == old(s)@,
        old(s)@.len() > 0 ==> r == Some(old(s)@.last()) && final(s)@ == old(s)@.drop_last(),
{
    s.pop()
}

impl Payload {
    /// A payload holding the same values.
    pub fn duplicate(&self) -> (r: Payload)
        ensures
            r@ == self@,
    {
        match self {
            Payload::Process => Payload::Process,
            Payload::Text(s) => Payload::Text(s.clone()),
            Payload::Empty => Payload::Empty,
        }
    }

    /// Applies a typed key to a text payload.
    pub fn type_key(&mut self, key: &str)
        ensures
            final(self)@ == spec_type_key(old(self)@, key@),
    {
        match self {
            Payload::Text(s) => {
                if key.unicode_len() == 1 {
                    let c = key.get_char(0);
                    string_push(s, c);
                } else if str_eq(key, "Backspace") {
                    let _ = string_pop(s);
                }
            },
            _ => {},
        }
    }
}

/// Reading back what was stored gives the same payload, for every type.
pub proof fn lemma_payload_round_trip(p: PayloadModel)
    ensures
        deserializable(payload_kind(p), spec_serialize(p)),
        spec_deserialize(payload_kind(p), spec_serialize(p)) == p,
        payload_kind(p) != TypeKind::Text ==> spec_deserialize(payload_kind(p), spec_serialize(p)) == spec_init(
            payload_kind(p),
        ),
{
    broadcast use encode_utf8_valid_utf8, encode_utf8_decode_utf8;
}

/// Whether two strings hold the same characters.
pub fn str_eq(a: &str, b: &str) -> (r: bool)
    ensures
        r == (a@ == b@),
{
    let x = a.as_bytes();
    let y = b.as_bytes();
    proof {
        broadcast use encode_utf8_decode_utf8;
        assert(decode_utf8(encode_utf8(a@)) == a@);
        assert(decode_utf8(encode_utf8(b@)) == b@);
    }
    if x.len() != y.len() {
        return false;
    }
    let mut i: usize = 0;
    while i < x.len()
        invariant
            x@ == encode_utf8(a@),
            y@ == encode_utf8(b@),
            x@.len() == y@.len(),
            i <= x@.len(),
            forall|j: int| 0 <= j < i ==> x@[j] == y@[j],
        decreases x@.len() - i,
    {
        if x[i] != y[i] {
            return false;
        }
        i = i + 1;
    }
    proof {
        assert(x@ =~= y@);
    }
    true
}

/// The type stored under `name`, if any.
pub open spec fn spec_find_type(name: Seq<char>) -> Option<TypeKind> {
    if name == "Process"@ {
        Some(TypeKind::Process)
    } else if name == "Text"@ {
        Some(TypeKind::Text)
    } else if name == "Empty"@ {
        Some(TypeKind::Empty)
    } else {
        None
    }
}

/// Looking up the name of a type gives that type back.
pub proof fn lemma_find_type_name(t: TypeKind)
    ensures
        spec_find_type(spec_type_name(t)) == Some(t),
{
    reveal_strlit("Process");
    reveal_strlit("Text");
    reveal_strlit("Empty");
    assert("Process"@.len() == 7);
    assert("Text"@.len() == 4);
    assert("Empty"@.len() == 5);
}

/// Looks a type up by the name it is stored under.
pub fn find_type(name: &str) -> (r: Option<TypeKind>)
    ensures
        r == spec_find_type(name@),
        r matches Some(t) ==> spec_type_name(t) == name@,
{
    if str_eq("Process", name) {
        Some(TypeKind::Process)
    } else if str_eq("Text", name) {
        Some(TypeKind::Text)
    } else if str_eq("Empty", name) {
        Some(TypeKind::Empty)
    } else {
        None
    }
}

} // verus!
