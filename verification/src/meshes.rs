use crate::attribute::Attribute;
use crate::rect::Facet;
use crate::vec2::Vec2;
use crate::vec3::Vec3;
use vstd::prelude::*;

verus! {

/// A triangle mesh as flat lists: three numbers for each vertex's position
/// and normal, two for its surface coordinate, and three vertex numbers for
/// each triangle.
pub struct Mesh {
    pub position: Vec<crate::scalar::Scalar>,
    pub normal: Vec<crate::scalar::Scalar>,
    pub uv: Vec<crate::scalar::Scalar>,
    pub index: Vec<u16>,
}

/// A cup and the plate it stands on.
pub struct Donut {
    pub cup: Mesh,
    pub plate: Mesh,
}

impl Mesh {
    /// The lists fit together: the index list holds whole triangles, and
    /// every vertex that it names has its numbers in the other lists.
    pub open spec fn wf(self) -> bool {
        &&& self.index@.len() % 3 == 0
        &&& forall|i: int|
            0 <= i < self.index@.len() ==> {
                let vertex = #[trigger] self.index@[i] as int;
                &&& vertex * 3 + 2 < self.position@.len()
                &&& vertex * 3 + 2 < self.normal@.len()
                &&& vertex * 2 + 1 < self.uv@.len()
            }
    }

    /// The position of a vertex.
    pub open spec fn position_of(self, vertex: int) -> Vec3 {
        Vec3 {
            x: self.position@[vertex * 3],
            y: self.position@[vertex * 3 + 1],
            z: self.position@[vertex * 3 + 2],
        }
    }

    /// The normal at a vertex.
    pub open spec fn normal_of(self, vertex: int) -> Vec3 {
        Vec3 {
            x: self.normal@[vertex * 3],
            y: self.normal@[vertex * 3 + 1],
            z: self.normal@[vertex * 3 + 2],
        }
    }

    /// The surface coordinate at a vertex.
    pub open spec fn uv_of(self, vertex: int) -> Vec2 {
        Vec2 { x: self.uv@[vertex * 2], y: self.uv@[vertex * 2 + 1] }
    }

    /// The triangle number `t` of the mesh.
    pub open spec fn facet(self, t: int) -> Facet {
        let a = self.index@[3 * t] as int;
        let b = self.index@[3 * t + 1] as int;
        let c = self.index@[3 * t + 2] as int;
        Facet {
            position: Attribute {
                a: self.position_of(a),
                b: self.position_of(b),
                c: self.position_of(c),
            },
            normal: Attribute { a: self.normal_of(a), b: self.normal_of(b), c: self.normal_of(c) },
            uv: Attribute { a: self.uv_of(a), b: self.uv_of(b), c: self.uv_of(c) },
        }
    }

    /// The triangles of the mesh, in the order of the index list.
    pub open spec fn facets(self) -> Seq<Facet> {
        Seq::new((self.index@.len() / 3) as nat, |t: int| self.facet(t))
    }

    /// Whether the lists fit together.
    pub fn check(&self) -> (ok: bool)
        ensures
            ok == self.wf(),
    {
        if self.index.len() % 3 != 0 {
            return false;
        }
        let mut i: usize = 0;
        while i < self.index.len()
            invariant
                i <= self.index@.len(),
                forall|j: int|
                    0 <= j < i ==> {
                        let vertex = #[trigger] self.index@[j] as int;
                        &&& vertex * 3 + 2 < self.position@.len()
                        &&& vertex * 3 + 2 < self.normal@.len()
                        &&& vertex * 2 + 1 < self.uv@.len()
                    },
            decreases self.index@.len() - i,
        {
            let vertex = self.index[i] as usize;
            if vertex * 3 + 2 >= self.position.len() || vertex * 3 + 2 >= self.normal.len()
                || vertex * 2 + 1 >= self.uv.len() {
                return false;
            }
            i = i + 1;
        }
        true
    }

    /// The triangles of the mesh.
    pub fn bake(&self) -> (r: Vec<Facet>)
        requires
            self.wf(),
        ensures
            r@ == self.facets(),
    {
        let mut triangles: Vec<Facet> = Vec::new();
        let mut i: usize = 0;
        while i < self.index.len()
            invariant
                self.wf(),
                i <= self.index@.len(),
                i % 3 == 0,
                triangles@.len() == i / 3,
                forall|t: int| 0 <= t < triangles@.len() ==> triangles@[t] == self.facet(t),
            decreases self.index@.len() - i,
        {
            let ai = self.index[i] as usize;
            let bi = self.index[i + 1] as usize;
            let ci = self.index[i + 2] as usize;
            let a = Vec3::from_array(self.position.as_slice(), ai * 3);
            let b = Vec3::from_array(self.position.as_slice(), bi * 3);
            let c = Vec3::from_array(self.position.as_slice(), ci * 3);
            let na = Vec3::from_array(self.normal.as_slice(), ai * 3);
            let nb = Vec3::from_array(self.normal.as_slice(), bi * 3);
            let nc = Vec3::from_array(self.normal.as_slice(), ci * 3);
            let ta = Vec2::from_array(self.uv.as_slice(), ai * 2);
            let tb = Vec2::from_array(self.uv.as_slice(), bi * 2);
            let tc = Vec2::from_array(self.uv.as_slice(), ci * 2);
            let position = Attribute::new(a, b, c);
            let normal = Attribute::new(na, nb, nc);
            let uv = Attribute::new(ta, tb, tc);
            triangles.push(Facet { position, normal, uv });
            i = i + 3;
        }
        assert(triangles@ =~= self.facets());
        triangles
    }
}

/// The triangles of the cup.
pub fn bake_cup_mesh(donut: &Donut) -> (r: Vec<Facet>)
    requires
        donut.cup.wf(),
    ensures
        r@ == donut.cup.facets(),
{
    donut.cup.bake()
}

/// The triangles of the monkey's head.
pub fn bake_monkey_mesh(monkey: &Mesh) -> (r: Vec<Facet>)
    requires
        monkey.wf(),
    ensures
        r@ == monkey.facets(),
{
    monkey.bake()
}

} // verus!
