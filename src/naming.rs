use vstd::prelude::*;
use vstd::string::StringSliceAdditionalSpecFns;

verus! {

/// The most bytes of a timesheet name that go into an output file name.
pub const MAX_NAME_PART: usize = 100;

/// A byte that cannot stand in a file name here (`/`, `\` or `:`) becomes `_`.
pub open spec fn file_safe_byte(b: u8) -> u8 {
    if b == 0x2f || b == 0x5c || b == 0x3a {
        0x5f
    } else {
        b
    }
}

/// The part of an output file name taken from a timesheet name: its UTF-8 bytes with path
/// separators and colons made `_`, cut to at most 100 bytes.
pub open spec fn name_part(bytes: Seq<u8>) -> Seq<u8> {
    let n = if bytes.len() > MAX_NAME_PART {
        MAX_NAME_PART as int
    } else {
        bytes.len() as int
    };
    Seq::new(n as nat, |i: int| file_safe_byte(bytes[i]))
}

/// The bytes of a timesheet name to use in an output file name. The cut at 100 bytes may
/// fall inside a multi-byte character; the caller decides how to read such an end.
pub fn sheet_file_part(name: &str) -> (r: Vec<u8>)
    ensures
        r@ == name_part(name.spec_bytes()),
{
    let bytes = name.as_bytes();
    let n = if bytes.len() > MAX_NAME_PART {
        MAX_NAME_PART
    } else {
        bytes.len()
    };
    let mut out: Vec<u8> = Vec::new();
    let mut i: usize = 0;
    while i < n
        invariant
            n <= bytes@.len(),
            bytes@ == name.spec_bytes(),
            n == if bytes@.len() > MAX_NAME_PART {
                MAX_NAME_PART as int
            } else {
                bytes@.len() as int
            },
            i <= n,
            out@ == Seq::new(i as nat, |k: int| file_safe_byte(bytes@[k])),
        decreases n - i,
    {
        let b = bytes[i];
        let c = if b == 0x2f || b == 0x5c || b == 0x3a {
            0x5f
        } else {
            b
        };
        out.push(c);
        i = i + 1;
        assert(out@ =~= Seq::new(i as nat, |k: int| file_safe_byte(bytes@[k])));
    }
    out
}

} // verus!
