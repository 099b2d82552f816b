//! Header fields and the byte grammar of head components.
//!
//! Heads keep their fields as an ordered list of (name, value) pairs: wire
//! order and name casing survive decoding, and duplicate names are kept as
//! separate entries, so that re-encoding reproduces the original bytes.
//! Case-insensitive lookup is a separate read-only view.
use vstd::prelude::*;

verus! {

/// A token byte (`tchar`) of the HTTP field grammar: the bytes allowed in
/// method names and header names.
pub open spec fn is_tchar(b: u8) -> bool {
    ||| 48 <= b <= 57  // digit
    ||| 65 <= b <= 90  // upper-case letter
    ||| 97 <= b <= 122  // lower-case letter
    ||| b == 33 || b == 35 || b == 36 || b == 37 || b == 38 || b == 39  // ! # $ % & '
    ||| b == 42 || b == 43 || b == 45 || b == 46  // * + - .
    ||| b == 94 || b == 95 || b == 96 || b == 124 || b == 126  // ^ _ ` | ~
}

/// A byte allowed in a request target: visible ASCII.
pub open spec fn is_target_byte(b: u8) -> bool {
    33 <= b <= 126
}

/// A byte allowed in a header value or a reason phrase: horizontal tab,
/// space, visible ASCII, or obsolete high text.
pub open spec fn is_value_byte(b: u8) -> bool {
    b == 9 || (32 <= b <= 126) || b >= 128
}

/// A non-empty all-token byte string.
pub open spec fn token_ok(s: Seq<u8>) -> bool {
    s.len() > 0 && forall|i: int| 0 <= i < s.len() ==> is_tchar(s[i])
}

/// A non-empty request target of visible ASCII bytes.
pub open spec fn target_ok(s: Seq<u8>) -> bool {
    s.len() > 0 && forall|i: int| 0 <= i < s.len() ==> is_target_byte(s[i])
}

/// A possibly empty value or reason of allowed bytes.
pub open spec fn value_ok(s: Seq<u8>) -> bool {
    forall|i: int| 0 <= i < s.len() ==> is_value_byte(s[i])
}

pub fn check_tchar(b: u8) -> (r: bool)
    ensures
        r == is_tchar(b),
{
    (48 <= b && b <= 57) || (65 <= b && b <= 90) || (97 <= b && b <= 122) || b == 33 || b == 35
        || b == 36 || b == 37 || b == 38 || b == 39 || b == 42 || b == 43 || b == 45 || b == 46
        || b == 94 || b == 95 || b == 96 || b == 124 || b == 126
}

pub fn check_token(s: &Vec<u8>) -> (r: bool)
    ensures
        r == token_ok(s@),
{
    if s.len() == 0 {
        return false;
    }
    let mut i: usize = 0;
    while i < s.len()
        invariant
            i <= s@.len(),
            forall|j: int| 0 <= j < i ==> is_tchar(s@[j]),
        decreases s@.len() - i,
    {
        if !check_tchar(s[i]) {
            return false;
        }
        i = i + 1;
    }
    true
}

pub fn check_target(s: &Vec<u8>) -> (r: bool)
    ensures
        r == target_ok(s@),
{
    if s.len() == 0 {
        return false;
    }
    let mut i: usize = 0;
    while i < s.len()
        invariant
            i <= s@.len(),
            forall|j: int| 0 <= j < i ==> is_target_byte(s@[j]),
        decreases s@.len() - i,
    {
        let b = s[i];
        if !(33 <= b && b <= 126) {
            return false;
        }
        i = i + 1;
    }
    true
}

pub fn check_value(s: &Vec<u8>) -> (r: bool)
    ensures
        r == value_ok(s@),
{
    let mut i: usize = 0;
    while i < s.len()
        invariant
            i <= s@.len(),
            forall|j: int| 0 <= j < i ==> is_value_byte(s@[j]),
        decreases s@.len() - i,
    {
        let b = s[i];
        if !(b == 9 || (32 <= b && b <= 126) || b >= 128) {
            return false;
        }
        i = i + 1;
    }
    true
}

/// One header field as it stood on the wire: name casing untouched.
#[derive(Debug)]
pub struct HeaderField {
    pub name: Vec<u8>,
    pub value: Vec<u8>,
}

/// The mathematical view of a header field.
pub struct FieldModel {
    pub name: Seq<u8>,
    pub value: Seq<u8>,
}

impl View for HeaderField {
    type V = FieldModel;

    open spec fn view(&self) -> FieldModel {
        FieldModel { name: self.name@, value: self.value@ }
    }
}

/// A field whose name is a token and whose value holds only allowed bytes.
pub open spec fn field_ok(f: FieldModel) -> bool {
    token_ok(f.name) && value_ok(f.value)
}

/// The view of a field list.
pub open spec fn fields_view(v: Seq<HeaderField>) -> Seq<FieldModel> {
    v.map_values(|f: HeaderField| f@)
}

pub open spec fn fields_ok(fs: Seq<FieldModel>) -> bool {
    forall|i: int| 0 <= i < fs.len() ==> field_ok(#[trigger] fs[i])
}

pub fn check_fields(v: &Vec<HeaderField>) -> (r: bool)
    ensures
        r == fields_ok(fields_view(v@)),
{
    let mut i: usize = 0;
    while i < v.len()
        invariant
            i <= v@.len(),
            forall|j: int| 0 <= j < i ==> field_ok(#[trigger] fields_view(v@)[j]),
        decreases v@.len() - i,
    {
        let f = &v[i];
        if !check_token(&f.name) || !check_value(&f.value) {
            proof {
                assert(fields_view(v@)[i as int] == v@[i as int]@);
            }
            return false;
        }
        proof {
            assert(fields_view(v@)[i as int] == v@[i as int]@);
        }
        i = i + 1;
    }
    true
}

/// ASCII lower-casing of one byte, for case-insensitive name comparison.
pub open spec fn lower(b: u8) -> u8 {
    if 65 <= b <= 90 {
        (b + 32) as u8
    } else {
        b
    }
}

/// Two field names are equal up to ASCII case.
pub open spec fn name_eq_ci(a: Seq<u8>, b: Seq<u8>) -> bool {
    a.len() == b.len() && forall|i: int| 0 <= i < a.len() ==> lower(a[i]) == lower(b[i])
}

pub fn check_name_eq_ci(a: &Vec<u8>, b: &Vec<u8>) -> (r: bool)
    ensures
        r == name_eq_ci(a@, b@),
{
    if a.len() != b.len() {
        return false;
    }
    let mut i: usize = 0;
    while i < a.len()
        invariant
            i <= a@.len(),
            a@.len() == b@.len(),
            forall|j: int| 0 <= j < i ==> lower(a@[j]) == lower(b@[j]),
        decreases a@.len() - i,
    {
        let mut x = a[i];
        let mut y = b[i];
        if 65 <= x && x <= 90 {
            x = x + 32;
        }
        if 65 <= y && y <= 90 {
            y = y + 32;
        }
        if x != y {
            return false;
        }
        i = i + 1;
    }
    true
}

/// The value of the first field whose name matches `name` up to ASCII case,
/// if any: the read-only lookup view over the order-preserving list.
pub fn field_value<'a>(fields: &'a Vec<HeaderField>, name: &Vec<u8>) -> (r: Option<&'a Vec<u8>>)
    ensures
        match r {
            Some(v) => exists|i: int|
                {
                    &&& 0 <= i < fields@.len()
                    &&& name_eq_ci(#[trigger] fields@[i]@.name, name@)
                    &&& v@ == fields@[i]@.value
                    &&& forall|j: int| 0 <= j < i ==> !name_eq_ci(#[trigger] fields@[j]@.name, name@)
                },
            None => forall|j: int|
                0 <= j < fields@.len() ==> !name_eq_ci(#[trigger] fields@[j]@.name, name@),
        },
{
    let mut i: usize = 0;
    while i < fields.len()
        invariant
            i <= fields@.len(),
            forall|j: int| 0 <= j < i ==> !name_eq_ci(#[trigger] fields@[j]@.name, name@),
        decreases fields@.len() - i,
    {
        if check_name_eq_ci(&fields[i].name, name) {
            proof {
                let w = i as int;
                assert(name_eq_ci(#[trigger] fields@[w]@.name, name@));
            }
            return Some(&fields[i].value);
        }
        i = i + 1;
    }
    None
}

} // verus!
