//! The camera model registry: numeric ids, names and parameter layouts.
use vstd::prelude::*;

verus! {

/// A parametric lens/projection model; it fixes how many intrinsic
/// parameters a camera record carries and where the focal lengths and the
/// principal point sit among them.
#[derive(Clone, Copy, Debug, PartialEq, Eq, Structural)]
pub enum CameraModel {
    SimplePinhole,
    Pinhole,
    SimpleRadial,
    Radial,
    OpenCV,
    OpenCvFishEye,
    FullOpenCV,
    Fov,
    SimpleRadialFisheye,
    RadialFisheye,
    ThinPrismFisheye,
}

/// Where the parameters of one model stand: their number and the indices
/// of focal-x, focal-y, principal-x and principal-y in the parameter list.
#[derive(Clone, Copy, Debug, PartialEq, Eq, Structural)]
pub struct ParamLayout {
    pub count: usize,
    pub focal_x: usize,
    pub focal_y: usize,
    pub principal_x: usize,
    pub principal_y: usize,
}

/// The layout table, one row per model.
pub open spec fn layout_of(m: CameraModel) -> ParamLayout {
    match m {
        CameraModel::SimplePinhole => row(3, 0, 0, 1, 2),
        CameraModel::Pinhole => row(4, 0, 1, 2, 3),
        CameraModel::SimpleRadial => row(4, 0, 0, 1, 2),
        CameraModel::Radial => row(5, 0, 0, 1, 2),
        CameraModel::OpenCV => row(8, 0, 1, 2, 3),
        CameraModel::OpenCvFishEye => row(8, 0, 1, 2, 3),
        CameraModel::FullOpenCV => row(12, 0, 1, 2, 3),
        CameraModel::Fov => row(5, 0, 1, 2, 3),
        CameraModel::SimpleRadialFisheye => row(4, 0, 0, 1, 2),
        CameraModel::RadialFisheye => row(5, 0, 0, 1, 2),
        CameraModel::ThinPrismFisheye => row(12, 0, 1, 2, 3),
    }
}

pub open spec fn row(
    count: usize,
    focal_x: usize,
    focal_y: usize,
    principal_x: usize,
    principal_y: usize,
) -> ParamLayout {
    ParamLayout { count, focal_x, focal_y, principal_x, principal_y }
}

/// The number of parameters that a record of model `m` carries.
pub open spec fn param_count(m: CameraModel) -> nat {
    layout_of(m).count as nat
}

/// The numeric id under which the binary encoding stores a model.
pub open spec fn model_id(m: CameraModel) -> i32 {
    match m {
        CameraModel::SimplePinhole => 0,
        CameraModel::Pinhole => 1,
        CameraModel::SimpleRadial => 2,
        CameraModel::Radial => 3,
        CameraModel::OpenCV => 4,
        CameraModel::OpenCvFishEye => 5,
        CameraModel::FullOpenCV => 6,
        CameraModel::Fov => 7,
        CameraModel::SimpleRadialFisheye => 8,
        CameraModel::RadialFisheye => 9,
        CameraModel::ThinPrismFisheye => 10,
    }
}

/// The name under which the text encoding writes a model.
pub open spec fn model_name(m: CameraModel) -> Seq<char> {
    match m {
        CameraModel::SimplePinhole => "SIMPLE_PINHOLE"@,
        CameraModel::Pinhole => "PINHOLE"@,
        CameraModel::SimpleRadial => "SIMPLE_RADIAL"@,
        CameraModel::Radial => "RADIAL"@,
        CameraModel::OpenCV => "OPENCV"@,
        CameraModel::OpenCvFishEye => "OPENCV_FISHEYE"@,
        CameraModel::FullOpenCV => "FULL_OPENCV"@,
        CameraModel::Fov => "FOV"@,
        CameraModel::SimpleRadialFisheye => "SIMPLE_RADIAL_FISHEYE"@,
        CameraModel::RadialFisheye => "RADIAL_FISHEYE"@,
        CameraModel::ThinPrismFisheye => "THIN_PRISM_FISHEYE"@,
    }
}

/// The model whose numeric id is `id`, if any.
pub open spec fn model_with_id(id: i32) -> Option<CameraModel> {
    if exists|m: CameraModel| model_id(m) == id {
        Some(choose|m: CameraModel| model_id(m) == id)
    } else {
        None
    }
}

/// The bytes of a text token, read as characters.
pub open spec fn as_chars(t: Seq<u8>) -> Seq<char> {
    t.map_values(|b: u8| b as char)
}

/// The model whose name is spelt by the bytes `t`, if any.
pub open spec fn model_with_name(t: Seq<u8>) -> Option<CameraModel> {
    if exists|m: CameraModel| model_name(m) == as_chars(t) {
        Some(choose|m: CameraModel| model_name(m) == as_chars(t))
    } else {
        None
    }
}

impl CameraModel {
    /// The model stored under numeric id `id` (0 to 10, in declaration order).
    pub fn from_id(id: i32) -> (r: Option<CameraModel>)
        ensures
            r == model_with_id(id),
            r matches Some(m) ==> model_id(m) == id,
            r is None <==> !(0 <= id <= 10),
    {
        let r = match id {
            0 => Some(CameraModel::SimplePinhole),
            1 => Some(CameraModel::Pinhole),
            2 => Some(CameraModel::SimpleRadial),
            3 => Some(CameraModel::Radial),
            4 => Some(CameraModel::OpenCV),
            5 => Some(CameraModel::OpenCvFishEye),
            6 => Some(CameraModel::FullOpenCV),
            7 => Some(CameraModel::Fov),
            8 => Some(CameraModel::SimpleRadialFisheye),
            9 => Some(CameraModel::RadialFisheye),
            10 => Some(CameraModel::ThinPrismFisheye),
            _ => None,
        };
        proof {
            lemma_model_id_injective();
            if let Some(m) = r {
                assert(model_id(m) == id);
            } else {
                assert forall|m: CameraModel| model_id(m) != id by {}
            }
        }
        r
    }

    /// The model whose text name is spelt by `name` (for instance `PINHOLE`).
    pub fn from_name(name: &[u8]) -> (r: Option<CameraModel>)
        ensures
            r == model_with_name(name@),
            r matches Some(m) ==> model_name(m) == as_chars(name@),
    {
        let r = if spells(name, "SIMPLE_PINHOLE") {
            Some(CameraModel::SimplePinhole)
        } else if spells(name, "PINHOLE") {
            Some(CameraModel::Pinhole)
        } else if spells(name, "SIMPLE_RADIAL") {
            Some(CameraModel::SimpleRadial)
        } else if spells(name, "RADIAL") {
            Some(CameraModel::Radial)
        } else if spells(name, "OPENCV") {
            Some(CameraModel::OpenCV)
        } else if spells(name, "OPENCV_FISHEYE") {
            Some(CameraModel::OpenCvFishEye)
        } else if spells(name, "FULL_OPENCV") {
            Some(CameraModel::FullOpenCV)
        } else if spells(name, "FOV") {
            Some(CameraModel::Fov)
        } else if spells(name, "SIMPLE_RADIAL_FISHEYE") {
            Some(CameraModel::SimpleRadialFisheye)
        } else if spells(name, "RADIAL_FISHEYE") {
            Some(CameraModel::RadialFisheye)
        } else if spells(name, "THIN_PRISM_FISHEYE") {
            Some(CameraModel::ThinPrismFisheye)
        } else {
            None
        };
        proof {
            lemma_model_name_injective();
            if let Some(m) = r {
                assert(model_name(m) == as_chars(name@));
            } else {
                assert forall|m: CameraModel| model_name(m) != as_chars(name@) by {}
            }
        }
        r
    }

    /// The numeric id of this model in the binary encoding.
    pub fn id(&self) -> (r: i32)
        ensures
            r == model_id(*self),
    {
        match self {
            CameraModel::SimplePinhole => 0,
            CameraModel::Pinhole => 1,
            CameraModel::SimpleRadial => 2,
            CameraModel::Radial => 3,
            CameraModel::OpenCV => 4,
            CameraModel::OpenCvFishEye => 5,
            CameraModel::FullOpenCV => 6,
            CameraModel::Fov => 7,
            CameraModel::SimpleRadialFisheye => 8,
            CameraModel::RadialFisheye => 9,
            CameraModel::ThinPrismFisheye => 10,
        }
    }

    /// The parameter layout of this model, from the one table that every
    /// accessor consults.
    pub fn layout(&self) -> (r: ParamLayout)
        ensures
            r == layout_of(*self),
    {
        match self {
            CameraModel::SimplePinhole => ParamLayout::new(3, 0, 0, 1, 2),
            CameraModel::Pinhole => ParamLayout::new(4, 0, 1, 2, 3),
            CameraModel::SimpleRadial => ParamLayout::new(4, 0, 0, 1, 2),
            CameraModel::Radial => ParamLayout::new(5, 0, 0, 1, 2),
            CameraModel::OpenCV => ParamLayout::new(8, 0, 1, 2, 3),
            CameraModel::OpenCvFishEye => ParamLayout::new(8, 0, 1, 2, 3),
            CameraModel::FullOpenCV => ParamLayout::new(12, 0, 1, 2, 3),
            CameraModel::Fov => ParamLayout::new(5, 0, 1, 2, 3),
            CameraModel::SimpleRadialFisheye => ParamLayout::new(4, 0, 0, 1, 2),
            CameraModel::RadialFisheye => ParamLayout::new(5, 0, 0, 1, 2),
            CameraModel::ThinPrismFisheye => ParamLayout::new(12, 0, 1, 2, 3),
        }
    }

    /// The number of parameters that a record of this model carries.
    pub fn num_params(&self) -> (r: usize)
        ensures
            r == param_count(*self),
            3 <= r <= 12,
    {
        self.layout().count
    }

    /// The indices of focal-x and focal-y in the parameter list.
    pub fn focal_indices(&self) -> (r: (usize, usize))
        ensures
            r == (layout_of(*self).focal_x, layout_of(*self).focal_y),
            r.0 < param_count(*self),
            r.1 < param_count(*self),
    {
        let l = self.layout();
        (l.focal_x, l.focal_y)
    }

    /// The indices of principal-x and principal-y in the parameter list.
    pub fn principal_point_indices(&self) -> (r: (usize, usize))
        ensures
            r == (layout_of(*self).principal_x, layout_of(*self).principal_y),
            r.0 < param_count(*self),
            r.1 < param_count(*self),
    {
        let l = self.layout();
        (l.principal_x, l.principal_y)
    }
}

impl ParamLayout {
    fn new(
        count: usize,
        focal_x: usize,
        focal_y: usize,
        principal_x: usize,
        principal_y: usize,
    ) -> (r: ParamLayout)
        ensures
            r == row(count, focal_x, focal_y, principal_x, principal_y),
    {
        ParamLayout { count, focal_x, focal_y, principal_x, principal_y }
    }
}

/// Whether the bytes `t` spell the text `name`, character by character.
fn spells(t: &[u8], name: &str) -> (r: bool)
    ensures
        r == (as_chars(t@) == name@),
{
    let n: usize = name.unicode_len();
    if t.len() != n {
        proof {
            assert(as_chars(t@).len() != name@.len());
        }
        return false;
    }
    let mut i: usize = 0;
    while i < n
        invariant
            n == name@.len(),
            t@.len() == n,
            i <= n,
            forall|k: int| 0 <= k < i ==> as_chars(t@)[k] == name@[k],
        decreases n - i,
    {
        if t[i] as char != name.get_char(i) {
            proof {
                assert(as_chars(t@)[i as int] != name@[i as int]);
            }
            return false;
        }
        i = i + 1;
    }
    proof {
        assert(as_chars(t@) =~= name@);
    }
    true
}

/// Two distinct models never share a name.
pub proof fn lemma_model_name_injective()
    ensures
        forall|a: CameraModel, b: CameraModel| model_name(a) == model_name(b) ==> a == b,
{
    reveal_strlit("SIMPLE_PINHOLE");
    reveal_strlit("PINHOLE");
    reveal_strlit("SIMPLE_RADIAL");
    reveal_strlit("RADIAL");
    reveal_strlit("OPENCV");
    reveal_strlit("OPENCV_FISHEYE");
    reveal_strlit("FULL_OPENCV");
    reveal_strlit("FOV");
    reveal_strlit("SIMPLE_RADIAL_FISHEYE");
    reveal_strlit("RADIAL_FISHEYE");
    reveal_strlit("THIN_PRISM_FISHEYE");
    assert forall|a: CameraModel, b: CameraModel| model_name(a) == model_name(b) implies a == b by {
        if a != b {
            assert(model_name(a).len() != model_name(b).len() || model_name(a)[0] != model_name(b)[0]
                || model_name(a)[1] != model_name(b)[1] || model_name(a)[5] != model_name(b)[5]
                || model_name(a)[7] != model_name(b)[7] || model_name(a)[10] != model_name(b)[10]);
        }
    }
}

/// Two distinct models never share a numeric id.
pub proof fn lemma_model_id_injective()
    ensures
        forall|a: CameraModel, b: CameraModel| model_id(a) == model_id(b) ==> a == b,
{
}

} // verus!
