use vstd::prelude::*;

use super::axis::Axis;
use crate::math::quad_tree::Quadrant;

verus! {

/// The largest depth an identity can record.
pub const MAX_DEPTH: u8 = 63;

/// The code of the path element at `i` in `bits`: three bits, the first
/// element in bits 10 to 12, the last in bits 28 to 30.
pub open spec fn path_code(bits: u32, i: int) -> u32 {
    if i == 0 {
        (bits >> 10) & 7
    } else if i == 1 {
        (bits >> 13) & 7
    } else if i == 2 {
        (bits >> 16) & 7
    } else if i == 3 {
        (bits >> 19) & 7
    } else if i == 4 {
        (bits >> 22) & 7
    } else if i == 5 {
        (bits >> 25) & 7
    } else {
        (bits >> 28) & 7
    }
}

/// These 32 bits are the identity of some leaf: the axis code is at most
/// five, every path code at most four, and the one unused bit is clear.
pub open spec fn valid_bits(bits: u32) -> bool {
    &&& bits & 7 <= 5
    &&& forall|i: int| 0 <= i < 7 ==> #[trigger] path_code(bits, i) <= 4
    &&& bits >> 31 == 0
}

/// The bits that stand for these four values: the axis in bits 0 to 2, the
/// depth in bits 3 to 8, the collider flag in bit 9, the path from bit 10 on.
pub open spec fn encode(axis: Axis, depth: u8, collider: bool, path: Seq<Quadrant>) -> u32 {
    axis.code() | ((depth as u32) << 3) | ((if collider {
        1u32
    } else {
        0u32
    }) << 9) | (path[0].code() << 10) | (path[1].code() << 13) | (path[2].code() << 16) | (
    path[3].code() << 19) | (path[4].code() << 22) | (path[5].code() << 25) | (path[6].code()
        << 28)
}

/// What an identity stands for.
pub struct ChunkHashView {
    pub axis: Axis,
    pub depth: u8,
    pub collider: bool,
    pub path: Seq<Quadrant>,
}

/// The four values that `bits` stand for.
pub open spec fn decode(bits: u32) -> ChunkHashView {
    ChunkHashView {
        axis: Axis::of_code(bits & 7),
        depth: ((bits >> 3) & 63) as u8,
        collider: (bits >> 9) & 1 != 0,
        path: Seq::new(7, |i: int| Quadrant::of_code(path_code(bits, i))),
    }
}

proof fn lemma_encode_fields(
    a: u32,
    d: u32,
    c: u32,
    e0: u32,
    e1: u32,
    e2: u32,
    e3: u32,
    e4: u32,
    e5: u32,
    e6: u32,
)
    by (bit_vector)
    requires
        a <= 5,
        d <= 63,
        c <= 1,
        e0 <= 4 && e1 <= 4 && e2 <= 4 && e3 <= 4 && e4 <= 4 && e5 <= 4 && e6 <= 4,
    ensures
        ({
            let h = a | (d << 3) | (c << 9) | (e0 << 10) | (e1 << 13) | (e2 << 16) | (e3 << 19)
                | (e4 << 22) | (e5 << 25) | (e6 << 28);
            &&& h & 7 == a
            &&& (h >> 3) & 63 == d
            &&& (h >> 9) & 1 == c
            &&& (h >> 10) & 7 == e0
            &&& (h >> 13) & 7 == e1
            &&& (h >> 16) & 7 == e2
            &&& (h >> 19) & 7 == e3
            &&& (h >> 22) & 7 == e4
            &&& (h >> 25) & 7 == e5
            &&& (h >> 28) & 7 == e6
            &&& h >> 31 == 0
        }),
{
}

proof fn lemma_bits_from_fields(h: u32)
    by (bit_vector)
    requires
        h >> 31 == 0,
    ensures
        h == (h & 7) | (((h >> 3) & 63) << 3) | (((h >> 9) & 1) << 9) | (((h >> 10) & 7) << 10) | (
        ((h >> 13) & 7) << 13) | (((h >> 16) & 7) << 16) | (((h >> 19) & 7) << 19) | (((h >> 22)
            & 7) << 22) | (((h >> 25) & 7) << 25) | (((h >> 28) & 7) << 28),
        (h >> 3) & 63 <= 63,
        (h >> 9) & 1 <= 1,
{
}

proof fn lemma_push_fields(h: u32, q: u32)
    by (bit_vector)
    requires
        q <= 4,
        (h >> 3) & 63 < 63,
    ensures
        ({
            let pushed = (h & 0x3FF) | (((((h >> 10) & 0x3FFFF) << 3) | q) << 10);
            let depth = (pushed >> 3) & 63;
            let r = (pushed & !(63u32 << 3)) | (((depth + 1) as u32) << 3);
            &&& depth == (h >> 3) & 63
            &&& depth + 1 <= 63
            &&& r & 7 == h & 7
            &&& (r >> 3) & 63 == ((h >> 3) & 63) + 1
            &&& (r >> 9) & 1 == (h >> 9) & 1
            &&& (r >> 10) & 7 == q
            &&& (r >> 13) & 7 == (h >> 10) & 7
            &&& (r >> 16) & 7 == (h >> 13) & 7
            &&& (r >> 19) & 7 == (h >> 16) & 7
            &&& (r >> 22) & 7 == (h >> 19) & 7
            &&& (r >> 25) & 7 == (h >> 22) & 7
            &&& (r >> 28) & 7 == (h >> 25) & 7
            &&& r >> 31 == 0
        }),
{
}

proof fn lemma_depth_fields(h: u32, d: u32)
    by (bit_vector)
    requires
        d <= 63,
    ensures
        ({
            let r = (h & !(63u32 << 3)) | ((d & 63) << 3);
            &&& r & 7 == h & 7
            &&& (r >> 3) & 63 == d
            &&& (r >> 9) & 1 == (h >> 9) & 1
            &&& (r >> 10) & 7 == (h >> 10) & 7
            &&& (r >> 13) & 7 == (h >> 13) & 7
            &&& (r >> 16) & 7 == (h >> 16) & 7
            &&& (r >> 19) & 7 == (h >> 19) & 7
            &&& (r >> 22) & 7 == (h >> 22) & 7
            &&& (r >> 25) & 7 == (h >> 25) & 7
            &&& (r >> 28) & 7 == (h >> 28) & 7
            &&& r >> 31 == h >> 31
            &&& (h >> 3) & 63 <= 63
        }),
{
}

proof fn lemma_collider_fields(h: u32, c: u32)
    by (bit_vector)
    requires
        c <= 1,
    ensures
        ({
            let r = (h & !(1u32 << 9)) | (c << 9);
            &&& r & 7 == h & 7
            &&& (r >> 3) & 63 == (h >> 3) & 63
            &&& (r >> 9) & 1 == c
            &&& (r >> 10) & 7 == (h >> 10) & 7
            &&& (r >> 13) & 7 == (h >> 13) & 7
            &&& (r >> 16) & 7 == (h >> 16) & 7
            &&& (r >> 19) & 7 == (h >> 19) & 7
            &&& (r >> 22) & 7 == (h >> 22) & 7
            &&& (r >> 25) & 7 == (h >> 25) & 7
            &&& (r >> 28) & 7 == (h >> 28) & 7
            &&& r >> 31 == h >> 31
        }),
{
}

/// The identity of a leaf: the face it lies on, how deep it lies, whether
/// it carries collision geometry, and the last seven quadrants of the way
/// down to it, the most recent first. All of it is packed into 31 bits, so
/// that an identity is a number that can be copied, compared and hashed.
///
/// Two leaves that are reached by the same subdivisions of the same face
/// have the same identity, however and whenever the tree was built.
#[derive(Copy, Clone, Debug, PartialEq, Eq, Hash, Structural)]
pub struct ChunkHash(u32);

impl View for ChunkHash {
    type V = ChunkHashView;

    open spec fn view(&self) -> ChunkHashView {
        decode(self.bits())
    }
}

impl ChunkHash {
    /// The 32 bits that hold the identity.
    pub closed spec fn bits(self) -> u32 {
        self.0
    }

    /// The bits are the identity of some leaf. This holds of every identity
    /// that a program can hold.
    #[verifier::type_invariant]
    pub open spec fn wf(self) -> bool {
        valid_bits(self.bits())
    }

    /// The path after one more step down, into `q`: `q` comes first, the
    /// six most recent quadrants follow, and the oldest is dropped.
    pub open spec fn pushed_path(path: Seq<Quadrant>, q: Quadrant) -> Seq<Quadrant> {
        seq![q] + path.subrange(0, 6)
    }

    /// The identity that stands for these four values. The depth is at
    /// most the largest depth.
    pub fn new(axis: Axis, depth: u8, collider: bool, path: [Quadrant; 7]) -> (hash: Self)
        requires
            depth <= MAX_DEPTH,
        ensures
            hash.bits() == encode(axis, depth, collider, path@),
            hash@ == (ChunkHashView { axis, depth, collider, path: path@ }),
            hash.wf(),
    {
        let a = axis.to_code();
        let d = depth as u32;
        let c: u32 = if collider {
            1
        } else {
            0
        };
        let e0 = path[0].to_code();
        let e1 = path[1].to_code();
        let e2 = path[2].to_code();
        let e3 = path[3].to_code();
        let e4 = path[4].to_code();
        let e5 = path[5].to_code();
        let e6 = path[6].to_code();
        let hash: u32 = a | (d << 3) | (c << 9) | (e0 << 10) | (e1 << 13) | (e2 << 16) | (e3
            << 19) | (e4 << 22) | (e5 << 25) | (e6 << 28);
        proof {
            lemma_decode_encode(axis, depth, collider, path@);
        }
        ChunkHash(hash)
    }

    /// The identity of a face that has not been subdivided: depth zero, no
    /// collider, and a path of `ROOT` only.
    pub fn new_root(axis: Axis) -> (hash: Self)
        ensures
            hash@ == (ChunkHashView {
                axis,
                depth: 0,
                collider: false,
                path: Seq::new(7, |i: int| Quadrant::ROOT),
            }),
            hash.bits() == axis.code(),
            hash.wf(),
    {
        let path = [Quadrant::ROOT; 7];
        let hash = Self::new(axis, 0, false, path);
        proof {
            assert(hash@.path =~= Seq::new(7, |i: int| Quadrant::ROOT));
            lemma_root_bits(axis.code());
        }
        hash
    }

    /// The identity of the child at `new_quadrant`: the quadrant is put in
    /// front of the path, whose oldest element is dropped when seven are
    /// held already, and the depth grows by one. Axis and collider flag stay.
    ///
    /// A leaf at the largest depth has no children with an identity.
    #[verifier::rlimit(50)]
    pub fn push_quadrant(&self, new_quadrant: Quadrant) -> (hash: Self)
        requires
            self@.depth < MAX_DEPTH,
        ensures
            hash@.axis == self@.axis,
            hash@.depth == self@.depth + 1,
            hash@.collider == self@.collider,
            hash@.path == Self::pushed_path(self@.path, new_quadrant),
            hash@.path[0] == new_quadrant,
            forall|i: int| 1 <= i < 7 ==> hash@.path[i] == self@.path[i - 1],
            hash.wf(),
    {
        proof {
            use_type_invariant(self);
        }
        let q = new_quadrant.to_code();
        let header_bits = self.0 & 0x3FF;  // the first 10 bits
        let path_bits = (self.0 >> 10) & 0x3FFFF;  // the six most recent quadrants
        let shifted_path = path_bits << 3;
        let new_path = shifted_path | q;
        let pushed = header_bits | (new_path << 10);
        let depth = (pushed >> 3) & 63;
        proof {
            lemma_depth_fields(self.0, 0);
            lemma_push_fields(self.0, q);
        }
        let result = (pushed & !(63u32 << 3)) | ((depth + 1) << 3);
        proof {
            assert forall|i: int| 0 <= i < 7 implies #[trigger] path_code(result, i) <= 4 by {
                if i > 0 {
                    assert(path_code(result, i) == path_code(self.0, i - 1));
                }
            }
            assert(decode(result).path =~= Self::pushed_path(self@.path, new_quadrant));
        }
        ChunkHash(result)
    }

    /// The same identity at another depth.
    pub fn with_depth(&self, depth: u8) -> (hash: Self)
        requires
            depth <= MAX_DEPTH,
        ensures
            hash@ == (ChunkHashView { depth, ..self@ }),
            hash.wf(),
    {
        proof {
            use_type_invariant(self);
            lemma_depth_fields(self.0, depth as u32);
        }
        let result = (self.0 & !(63u32 << 3)) | (((depth as u32) & 63) << 3);
        proof {
            assert forall|i: int| 0 <= i < 7 implies #[trigger] path_code(result, i) <= 4 by {
                assert(path_code(result, i) == path_code(self.0, i));
            }
            assert(decode(result).path =~= self@.path);
        }
        ChunkHash(result)
    }

    /// The same identity one level deeper, or at the same depth where that
    /// is the largest there is.
    pub fn increment_depth(&self) -> (hash: Self)
        ensures
            hash@ == (ChunkHashView {
                depth: if self@.depth < MAX_DEPTH {
                    (self@.depth + 1) as u8
                } else {
                    MAX_DEPTH
                },
                ..self@
            }),
            hash.wf(),
    {
        let depth = self.depth();
        let next = if depth < 63 {
            depth + 1
        } else {
            63
        };
        self.with_depth(next)
    }

    /// The same identity with the collider flag set or cleared.
    pub fn with_collider(&self, collider: bool) -> (hash: Self)
        ensures
            hash@ == (ChunkHashView { collider, ..self@ }),
            hash.wf(),
    {
        let c: u32 = if collider {
            1
        } else {
            0
        };
        proof {
            use_type_invariant(self);
            lemma_collider_fields(self.0, c);
        }
        let result = (self.0 & !(1u32 << 9)) | (c << 9);
        proof {
            assert forall|i: int| 0 <= i < 7 implies #[trigger] path_code(result, i) <= 4 by {
                assert(path_code(result, i) == path_code(self.0, i));
            }
            assert(decode(result).path =~= self@.path);
        }
        ChunkHash(result)
    }

    /// The face that the leaf lies on.
    pub fn axis(&self) -> (axis: Axis)
        ensures
            axis == self@.axis,
    {
        proof {
            use_type_invariant(self);
        }
        Axis::from_code(self.0 & 7)
    }

    /// How many levels below the root of its face the leaf lies.
    pub fn depth(&self) -> (depth: u8)
        ensures
            depth == self@.depth,
            depth <= MAX_DEPTH,
    {
        proof {
            lemma_depth_fields(self.0, 0);
        }
        ((self.0 >> 3) & 63) as u8
    }

    /// Whether the leaf carries collision geometry.
    pub fn collider(&self) -> (collider: bool)
        ensures
            collider == self@.collider,
    {
        ((self.0 >> 9) & 1) != 0
    }

    /// The last seven quadrants of the way down to the leaf, the most recent
    /// first; `ROOT` where the way was shorter.
    #[verifier::rlimit(50)]
    pub fn path(&self) -> (path: [Quadrant; 7])
        ensures
            path@ == self@.path,
    {
        proof {
            use_type_invariant(self);
            assert(path_code(self.0, 0) <= 4);
            assert(path_code(self.0, 1) <= 4);
            assert(path_code(self.0, 2) <= 4);
            assert(path_code(self.0, 3) <= 4);
            assert(path_code(self.0, 4) <= 4);
            assert(path_code(self.0, 5) <= 4);
            assert(path_code(self.0, 6) <= 4);
        }
        let q0 = Quadrant::from_code((self.0 >> 10) & 7);
        let q1 = Quadrant::from_code((self.0 >> 13) & 7);
        let q2 = Quadrant::from_code((self.0 >> 16) & 7);
        let q3 = Quadrant::from_code((self.0 >> 19) & 7);
        let q4 = Quadrant::from_code((self.0 >> 22) & 7);
        let q5 = Quadrant::from_code((self.0 >> 25) & 7);
        let q6 = Quadrant::from_code((self.0 >> 28) & 7);
        let path = [q0, q1, q2, q3, q4, q5, q6];
        proof {
            let expected = self@.path;
            assert(expected.len() == 7);
            assert(expected[0] == q0);
            assert(expected[1] == q1);
            assert(expected[2] == q2);
            assert(expected[3] == q3);
            assert(expected[4] == q4);
            assert(expected[5] == q5);
            assert(expected[6] == q6);
            assert(path@ =~= expected);
        }
        path
    }

    /// Axis, depth, path and collider flag at once.
    pub fn values(&self) -> (values: (Axis, u8, [Quadrant; 7], bool))
        ensures
            values.0 == self@.axis,
            values.1 == self@.depth,
            values.2@ == self@.path,
            values.3 == self@.collider,
    {
        (self.axis(), self.depth(), self.path(), self.collider())
    }

    /// The identity as a number, for use as a key.
    pub fn to_bits(&self) -> (bits: u32)
        ensures
            bits == self.bits(),
            valid_bits(bits),
    {
        proof {
            use_type_invariant(self);
        }
        self.0
    }

    /// The identity that a number stands for, if it stands for one.
    pub fn from_bits(bits: u32) -> (hash: Option<Self>)
        ensures
            valid_bits(bits) ==> (hash matches Some(h) && h.bits() == bits && h.wf()),
            !valid_bits(bits) ==> hash is None,
    {
        if bits & 7 <= 5 && (bits >> 10) & 7 <= 4 && (bits >> 13) & 7 <= 4 && (bits >> 16) & 7
            <= 4 && (bits >> 19) & 7 <= 4 && (bits >> 22) & 7 <= 4 && (bits >> 25) & 7 <= 4 && (
        bits >> 28) & 7 <= 4 && bits >> 31 == 0 {
            Some(ChunkHash(bits))
        } else {
            proof {
                if valid_bits(bits) {
                    assert(path_code(bits, 0) <= 4);
                    assert(path_code(bits, 1) <= 4);
                    assert(path_code(bits, 2) <= 4);
                    assert(path_code(bits, 3) <= 4);
                    assert(path_code(bits, 4) <= 4);
                    assert(path_code(bits, 5) <= 4);
                    assert(path_code(bits, 6) <= 4);
                }
            }
            None
        }
    }
}

proof fn lemma_root_bits(a: u32)
    by (bit_vector)
    requires
        a <= 5,
    ensures
        a | (0u32 << 3) | (0u32 << 9) | (0u32 << 10) | (0u32 << 13) | (0u32 << 16) | (0u32 << 19)
            | (0u32 << 22) | (0u32 << 25) | (0u32 << 28) == a,
{
}

/// Decoding what was encoded gives the four values back: axis, depth, path
/// and collider flag.
pub proof fn lemma_decode_encode(axis: Axis, depth: u8, collider: bool, path: Seq<Quadrant>)
    requires
        depth <= MAX_DEPTH,
        path.len() == 7,
    ensures
        decode(encode(axis, depth, collider, path)) == (ChunkHashView {
            axis,
            depth,
            collider,
            path,
        }),
        valid_bits(encode(axis, depth, collider, path)),
{
    let c: u32 = if collider {
        1
    } else {
        0
    };
    lemma_encode_fields(
        axis.code(),
        depth as u32,
        c,
        path[0].code(),
        path[1].code(),
        path[2].code(),
        path[3].code(),
        path[4].code(),
        path[5].code(),
        path[6].code(),
    );
    assert(decode(encode(axis, depth, collider, path)).path =~= path);
}

/// Encoding what valid bits decode to gives the bits back: two identities
/// that stand for the same four values are the same number.
pub proof fn lemma_encode_decode(bits: u32)
    requires
        valid_bits(bits),
    ensures
        encode(decode(bits).axis, decode(bits).depth, decode(bits).collider, decode(bits).path)
            == bits,
{
    lemma_bits_from_fields(bits);
    assert(path_code(bits, 0) <= 4);
    assert(path_code(bits, 1) <= 4);
    assert(path_code(bits, 2) <= 4);
    assert(path_code(bits, 3) <= 4);
    assert(path_code(bits, 4) <= 4);
    assert(path_code(bits, 5) <= 4);
    assert(path_code(bits, 6) <= 4);
    let v = decode(bits);
    assert(v.path[0].code() == path_code(bits, 0));
    assert(v.path[1].code() == path_code(bits, 1));
    assert(v.path[2].code() == path_code(bits, 2));
    assert(v.path[3].code() == path_code(bits, 3));
    assert(v.path[4].code() == path_code(bits, 4));
    assert(v.path[5].code() == path_code(bits, 5));
    assert(v.path[6].code() == path_code(bits, 6));
    assert(v.axis.code() == bits & 7);
}

/// Two identities are equal exactly when they stand for the same axis,
/// depth, collider flag and path.
pub proof fn lemma_identity(a: ChunkHash, b: ChunkHash)
    requires
        a.wf(),
        b.wf(),
    ensures
        a@ == b@ <==> a == b,
{
    lemma_encode_decode(a.bits());
    lemma_encode_decode(b.bits());
}

} // verus!
