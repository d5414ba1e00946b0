//! The index lists of level geometry: which objects of a level are colliders, and
//! how their faces become triangles.

use vstd::prelude::*;
use vstd::string::StringSliceAdditionalSpecFns;

verus! {

/// A face of a level object, by the indices of its corners.
#[derive(Clone, Copy, Debug, PartialEq, Eq, Structural)]
pub enum Primitive {
    Point(usize),
    Line(usize, usize),
    Triangle(usize, usize, usize),
}

/// Why the faces of an object cannot make a collider.
#[derive(Clone, Copy, Debug, PartialEq, Eq, Structural)]
pub enum ColliderError {
    /// The face at this place is not a triangle.
    NotATriangle { face: usize },
    /// The triangle at this place has a corner whose index does not fit sixteen bits.
    IndexTooLarge { face: usize },
}

/// A byte with an upper-case ASCII letter turned into its lower-case letter.
pub open spec fn ascii_lower(b: u8) -> u8 {
    if 65 <= b <= 90 {
        (b + 32) as u8
    } else {
        b
    }
}

/// The bytes of `collider_`, the prefix that marks a collider.
pub open spec fn collider_prefix() -> Seq<u8> {
    seq![99u8, 111u8, 108u8, 108u8, 105u8, 100u8, 101u8, 114u8, 95u8]
}

/// Whether a name, given by its bytes, marks a collider: it begins with `collider_`,
/// in upper or lower case.
pub open spec fn marks_collider(name: Seq<u8>) -> bool {
    &&& name.len() >= 9
    &&& forall|i: int| 0 <= i < 9 ==> ascii_lower(#[trigger] name[i]) == collider_prefix()[i]
}

/// Whether an object of this name is a collider.
pub fn is_collider_name(name: &str) -> (b: bool)
    ensures
        b == marks_collider(name.spec_bytes()),
{
    let bytes = name.as_bytes();
    let prefix: [u8; 9] = [99, 111, 108, 108, 105, 100, 101, 114, 95];
    if bytes.len() < 9 {
        return false;
    }
    let mut i: usize = 0;
    while i < 9
        invariant
            i <= 9,
            bytes@.len() >= 9,
            bytes@ == name.spec_bytes(),
            prefix@ == collider_prefix(),
            forall|j: int| 0 <= j < i ==> ascii_lower(#[trigger] bytes@[j]) == collider_prefix()[j],
        decreases 9 - i,
    {
        let b = bytes[i];
        let lower = if 65 <= b && b <= 90 {
            b + 32
        } else {
            b
        };
        if lower != prefix[i] {
            assert(ascii_lower(bytes@[i as int]) != collider_prefix()[i as int]);
            return false;
        }
        i = i + 1;
    }
    true
}

/// Whether a run of indices can be cut into triangles: it holds three indices for
/// each.
pub open spec fn cuts_into_triangles(indices: Seq<u16>) -> bool {
    indices.len() % 3 == 0
}

/// The triangles of an index list: each three indices in a row are the corners of
/// one.
pub open spec fn spec_triangles(indices: Seq<u16>) -> Seq<[u32; 3]>
    recommends
        cuts_into_triangles(indices),
{
    Seq::new(
        indices.len() / 3,
        |t: int| [indices[3 * t] as u32, indices[3 * t + 1] as u32, indices[3 * t + 2] as u32],
    )
}

/// Cuts an index list into triangles. A list that does not hold three indices for
/// each triangle is refused.
pub fn triangles(indices: &Vec<u16>) -> (found: Option<Vec<[u32; 3]>>)
    ensures
        found is Some <==> cuts_into_triangles(indices@),
        found matches Some(ts) ==> ts@ == spec_triangles(indices@),
{
    if indices.len() % 3 != 0 {
        return None;
    }
    let n = indices.len();
    let count = n / 3;
    let mut out: Vec<[u32; 3]> = Vec::new();
    let mut t: usize = 0;
    while t < count
        invariant
            t <= count,
            n == indices@.len(),
            count == indices@.len() / 3,
            indices@.len() % 3 == 0,
            out@.len() == t,
            forall|k: int| 0 <= k < t ==> #[trigger] out@[k] == spec_triangles(indices@)[k],
        decreases count - t,
    {
        assert(3 * t + 2 < n) by {
            assert(n == 3 * (n / 3));
        }
        let corners: [u32; 3] = [
            indices[3 * t] as u32,
            indices[3 * t + 1] as u32,
            indices[3 * t + 2] as u32,
        ];
        out.push(corners);
        t = t + 1;
    }
    assert(out@ =~= spec_triangles(indices@));
    Some(out)
}

/// Whether a face is a triangle whose corners fit sixteen bits.
pub open spec fn fits(face: Primitive) -> bool {
    face matches Primitive::Triangle(a, b, c) && a <= u16::MAX && b <= u16::MAX && c <= u16::MAX
}

/// What is wrong with a face that does not fit.
pub open spec fn fault(face: Primitive, at: usize) -> ColliderError {
    match face {
        Primitive::Triangle(_, _, _) => ColliderError::IndexTooLarge { face: at },
        _ => ColliderError::NotATriangle { face: at },
    }
}

/// The corners of a run of fitting faces, three for each, in order.
pub open spec fn corners(faces: Seq<Primitive>) -> Seq<u16>
    decreases faces.len(),
{
    if faces.len() == 0 {
        Seq::empty()
    } else {
        match faces.last() {
            Primitive::Triangle(a, b, c) => corners(faces.drop_last()) + seq![
                a as u16,
                b as u16,
                c as u16,
            ],
            _ => corners(faces.drop_last()),
        }
    }
}

/// The index list of a collider from the faces of its object. The first face that is
/// no triangle, or that has a corner beyond sixteen bits, is reported.
pub fn collider_indices(faces: &Vec<Primitive>) -> (r: Result<Vec<u16>, ColliderError>)
    ensures
        r is Ok <==> forall|i: int| 0 <= i < faces@.len() ==> fits(#[trigger] faces@[i]),
        r matches Ok(indices) ==> indices@ == corners(faces@),
        r matches Err(e) ==> exists|i: int|
            0 <= i < faces@.len() && !fits(#[trigger] faces@[i]) && e == fault(
                faces@[i],
                i as usize,
            ) && forall|j: int| 0 <= j < i ==> fits(#[trigger] faces@[j]),
{
    let mut out: Vec<u16> = Vec::new();
    let mut i: usize = 0;
    while i < faces.len()
        invariant
            i <= faces.len(),
            forall|j: int| 0 <= j < i ==> fits(#[trigger] faces@[j]),
            out@ == corners(faces@.take(i as int)),
        decreases faces.len() - i,
    {
        proof {
            assert(faces@.take(i + 1).drop_last() =~= faces@.take(i as int));
        }
        match faces[i] {
            Primitive::Triangle(a, b, c) => {
                if a > u16::MAX as usize || b > u16::MAX as usize || c > u16::MAX as usize {
                    return Err(ColliderError::IndexTooLarge { face: i });
                }
                out.push(a as u16);
                out.push(b as u16);
                out.push(c as u16);
                assert(out@ =~= corners(faces@.take(i as int)) + seq![a as u16, b as u16, c as u16]);
            },
            _ => {
                return Err(ColliderError::NotATriangle { face: i });
            },
        }
        i = i + 1;
    }
    proof {
        assert(faces@.take(i as int) =~= faces@);
    }
    Ok(out)
}

} // verus!
