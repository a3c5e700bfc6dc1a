//! Choice of the encoder when an image is saved.
use vstd::prelude::*;
use vstd::string::StringSliceAdditionalSpecFns;

verus! {

/// The byte with ASCII upper-case letters made lower-case.
pub open spec fn ascii_lower(b: u8) -> u8 {
    if 65 <= b <= 90 {
        (b + 32) as u8
    } else {
        b
    }
}

/// The two byte strings are equal when ASCII letters are compared without
/// regard to case.
pub open spec fn equal_ignoring_ascii_case(a: Seq<u8>, b: Seq<u8>) -> bool {
    &&& a.len() == b.len()
    &&& forall|i: int| 0 <= i < a.len() ==> #[trigger] ascii_lower(a[i]) == ascii_lower(b[i])
}

/// The file extension names JPEG: it is `jpg` or `jpeg`, in any case.
pub open spec fn names_jpeg(extension: Seq<u8>) -> bool {
    equal_ignoring_ascii_case(extension, seq![0x6au8, 0x70u8, 0x67u8])
        || equal_ignoring_ascii_case(extension, seq![0x6au8, 0x70u8, 0x65u8, 0x67u8])
}

fn lower(b: u8) -> (l: u8)
    ensures
        l == ascii_lower(b),
{
    if 65 <= b && b <= 90 {
        b + 32
    } else {
        b
    }
}

pub(crate) fn equal_ignoring_case(a: &[u8], b: &[u8]) -> (r: bool)
    ensures
        r == equal_ignoring_ascii_case(a@, b@),
{
    if a.len() != b.len() {
        return false;
    }
    let mut i: usize = 0;
    while i < a.len()
        invariant
            a.len() == b.len(),
            i <= a.len(),
            forall|k: int| 0 <= k < i ==> #[trigger] ascii_lower(a@[k]) == ascii_lower(b@[k]),
        decreases a.len() - i,
    {
        if lower(a[i]) != lower(b[i]) {
            assert(ascii_lower(a@[i as int]) != ascii_lower(b@[i as int]));
            return false;
        }
        i = i + 1;
    }
    true
}

/// Whether an image saved under this file extension is written as JPEG
/// (with the chosen quality) rather than in the format the extension names.
pub fn is_jpeg_extension(extension: &str) -> (jpeg: bool)
    ensures
        jpeg == names_jpeg(extension.spec_bytes()),
{
    let bytes = extension.as_bytes();
    let jpg: [u8; 3] = [0x6a, 0x70, 0x67];
    let jpeg: [u8; 4] = [0x6a, 0x70, 0x65, 0x67];
    assert(jpg@ =~= seq![0x6au8, 0x70u8, 0x67u8]);
    assert(jpeg@ =~= seq![0x6au8, 0x70u8, 0x65u8, 0x67u8]);
    equal_ignoring_case(bytes, jpg.as_slice()) || equal_ignoring_case(bytes, jpeg.as_slice())
}

} // verus!
