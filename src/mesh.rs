//! Reading face corners and turning polygon faces into triangles.
use vstd::prelude::*;
use vstd::string::StringSliceAdditionalSpecFns;

verus! {

/// Corner `i` of the fan of a face: triangle `i / 3` is `(v0, v(i/3 + 1), v(i/3 + 2))`.
pub open spec fn fan_corner(face: Seq<usize>, i: int) -> usize {
    if i % 3 == 0 {
        face[0]
    } else if i % 3 == 1 {
        face[i / 3 + 1]
    } else {
        face[i / 3 + 2]
    }
}

/// Splits a convex face `v0, v1, ..., v(n-1)` into the fan of triangles
/// `(v0, v(k+1), v(k+2))`, `k < n - 2`, keeping the face's winding, and lists
/// their corners three by three.
pub fn fan_triangulate(face: &Vec<usize>) -> (corners: Vec<usize>)
    requires
        face@.len() >= 3,
    ensures
        corners@.len() == 3 * (face@.len() - 2),
        forall|i: int| 0 <= i < corners@.len() ==> #[trigger] corners@[i] == fan_corner(face@, i),
{
    let n = face.len();
    let mut corners: Vec<usize> = Vec::new();
    let mut k: usize = 0;
    while k + 2 < n
        invariant
            n == face@.len(),
            n >= 3,
            k <= n - 2,
            corners@.len() == 3 * k,
            forall|i: int| 0 <= i < corners@.len() ==> #[trigger] corners@[i] == fan_corner(face@, i),
        decreases n - k,
    {
        corners.push(face[0]);
        corners.push(face[k + 1]);
        corners.push(face[k + 2]);
        k = k + 1;
    }
    corners
}

pub open spec fn is_digit(b: u8) -> bool {
    0x30 <= b <= 0x39
}

/// The number that a string of decimal digits writes.
pub open spec fn decimal(s: Seq<u8>) -> nat
    decreases s.len(),
{
    if s.len() == 0 {
        0
    } else {
        decimal(s.drop_last()) * 10 + (s.last() - 0x30) as nat
    }
}

/// `k` is where the first `/`-separated field of `s` ends.
pub open spec fn field_end(s: Seq<u8>, k: int) -> bool {
    &&& 0 <= k <= s.len()
    &&& k == s.len() || s[k] == 0x2f
    &&& forall|j: int| 0 <= j < k ==> #[trigger] s[j] != 0x2f
}

/// The first field of `s`, ending at `k`, is a non-empty run of decimal digits
/// that writes `v`.
pub open spec fn first_field_is(s: Seq<u8>, k: int, v: nat) -> bool {
    &&& field_end(s, k)
    &&& k > 0
    &&& forall|j: int| 0 <= j < k ==> is_digit(#[trigger] s[j])
    &&& decimal(s.subrange(0, k)) == v
}

/// A longer run of digits writes at least as large a number.
proof fn lemma_decimal_grows(s: Seq<u8>, i: int, k: int)
    requires
        0 <= i <= k <= s.len(),
        forall|j: int| 0 <= j < k ==> is_digit(#[trigger] s[j]),
    ensures
        decimal(s.subrange(0, i)) <= decimal(s.subrange(0, k)),
    decreases k - i,
{
    if i < k {
        lemma_decimal_grows(s, i, k - 1);
        assert(s.subrange(0, k).drop_last() =~= s.subrange(0, k - 1));
    }
}

/// Reads the vertex of a face corner written `v`, `v/t` or `v/t/n`: the first
/// `/`-separated field must be decimal digits writing a vertex number from 1 to
/// `vertex_count`, and the zero-based vertex index comes back.
pub fn parse_face_group(group: &str, vertex_count: usize) -> (r: Option<usize>)
    ensures
        match r {
            Some(i) => i < vertex_count && exists|k: int|
                #[trigger] first_field_is(group.spec_bytes(), k, (i + 1) as nat),
            None => forall|k: int, v: nat|
                #[trigger] first_field_is(group.spec_bytes(), k, v) ==> !(1 <= v <= vertex_count),
        },
{
    let s = group.as_bytes();
    let ghost b = group.spec_bytes();
    let n = s.len();
    let mut value: u128 = 0;
    let mut i: usize = 0;
    while i < n && s[i] != 0x2f
        invariant
            s@ == b,
            b == group.spec_bytes(),
            n == b.len(),
            0 <= i <= n,
            value <= vertex_count,
            value == decimal(b.subrange(0, i as int)),
            forall|j: int| 0 <= j < i ==> is_digit(#[trigger] b[j]) && b[j] != 0x2f,
        decreases n - i,
    {
        let d = s[i];
        if d < 0x30 || d > 0x39 {
            proof {
                assert forall|k: int, v: nat|
                    #[trigger] first_field_is(group.spec_bytes(), k, v) implies !(1 <= v
                        <= vertex_count) by {
                    if k <= i {
                        assert(b[k] == 0x2f);
                    }
                    assert(!is_digit(b[i as int]));
                }
            }
            return None;
        }
        assert(b.subrange(0, i + 1).drop_last() =~= b.subrange(0, i as int));
        value = value * 10 + (d - 0x30) as u128;
        if value > vertex_count as u128 {
            proof {
                assert forall|k: int, v: nat|
                    #[trigger] first_field_is(group.spec_bytes(), k, v) implies !(1 <= v
                        <= vertex_count) by {
                    if k <= i {
                        assert(b[k] == 0x2f);
                    }
                    lemma_decimal_grows(b, i + 1, k);
                }
            }
            return None;
        }
        i = i + 1;
    }
    assert(field_end(b, i as int));
    if i == 0 || value == 0 {
        proof {
            assert forall|k: int, v: nat|
                #[trigger] first_field_is(group.spec_bytes(), k, v) implies !(1 <= v
                    <= vertex_count) by {
                if k < i {
                    assert(b[k] == 0x2f);
                }
                if k > i {
                    assert(b[i as int] == 0x2f || i == b.len());
                }
            }
        }
        None
    } else {
        let index = (value - 1) as usize;
        assert(first_field_is(group.spec_bytes(), i as int, (index + 1) as nat));
        Some(index)
    }
}

} // verus!
