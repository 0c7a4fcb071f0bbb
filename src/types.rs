//! The entities of a reconstruction, their mathematical views and the
//! errors that a read can end with.
use crate::model::{param_count, CameraModel};
use vstd::prelude::*;

verus! {

/// A floating-point field as it stands in the input: the bit pattern of a
/// little-endian IEEE-754 binary64 value (binary form), or a decimal literal
/// that Rust's float grammar accepts (text form). Turning either into a
/// machine float is left to the consumer.
#[derive(Clone, Debug, PartialEq, Eq)]
pub enum Scalar {
    Binary64(u64),
    Decimal(Vec<u8>),
}

/// The view of a [`Scalar`].
pub enum ScalarView {
    Binary64(u64),
    Decimal(Seq<u8>),
}

impl View for Scalar {
    type V = ScalarView;

    open spec fn view(&self) -> ScalarView {
        match self {
            Scalar::Binary64(b) => ScalarView::Binary64(*b),
            Scalar::Decimal(d) => ScalarView::Decimal(d@),
        }
    }
}

/// A pair of scalars: an observation in pixel space.
#[derive(Clone, Debug, PartialEq, Eq)]
pub struct Vector2 {
    pub x: Scalar,
    pub y: Scalar,
}

/// A triple of scalars: a position or a translation.
#[derive(Clone, Debug, PartialEq, Eq)]
pub struct Vector3 {
    pub x: Scalar,
    pub y: Scalar,
    pub z: Scalar,
}

/// A rotation quaternion, held in (x, y, z, w) order.
#[derive(Clone, Debug, PartialEq, Eq)]
pub struct Quaternion {
    pub x: Scalar,
    pub y: Scalar,
    pub z: Scalar,
    pub w: Scalar,
}

impl View for Vector2 {
    type V = (ScalarView, ScalarView);

    open spec fn view(&self) -> (ScalarView, ScalarView) {
        (self.x@, self.y@)
    }
}

impl View for Vector3 {
    type V = (ScalarView, ScalarView, ScalarView);

    open spec fn view(&self) -> (ScalarView, ScalarView, ScalarView) {
        (self.x@, self.y@, self.z@)
    }
}

impl View for Quaternion {
    type V = (ScalarView, ScalarView, ScalarView, ScalarView);

    open spec fn view(&self) -> (ScalarView, ScalarView, ScalarView, ScalarView) {
        (self.x@, self.y@, self.z@, self.w@)
    }
}

/// The intrinsics of one camera.
#[derive(Clone, Debug, PartialEq, Eq)]
pub struct Camera {
    pub id: i32,
    pub model: CameraModel,
    pub width: u64,
    pub height: u64,
    pub params: Vec<Scalar>,
}

/// The view of a [`Camera`].
pub struct CameraView {
    pub id: i32,
    pub model: CameraModel,
    pub width: u64,
    pub height: u64,
    pub params: Seq<ScalarView>,
}

impl View for Camera {
    type V = CameraView;

    open spec fn view(&self) -> CameraView {
        CameraView {
            id: self.id,
            model: self.model,
            width: self.width,
            height: self.height,
            params: self.params@.map_values(|p: Scalar| p@),
        }
    }
}

impl CameraView {
    /// A camera carries exactly the parameters that its model asks for.
    pub open spec fn wf(&self) -> bool {
        self.params.len() == param_count(self.model)
    }
}

/// A posed image and its 2D observations.
#[derive(Clone, Debug, PartialEq, Eq)]
pub struct Image {
    pub id: i32,
    pub quat: Quaternion,
    pub tvec: Vector3,
    pub camera_id: i32,
    pub name: String,
    pub xys: Vec<Vector2>,
    pub point3d_ids: Vec<i64>,
}

/// The view of an [`Image`].
pub struct ImageView {
    pub id: i32,
    pub quat: (ScalarView, ScalarView, ScalarView, ScalarView),
    pub tvec: (ScalarView, ScalarView, ScalarView),
    pub camera_id: i32,
    pub name: Seq<char>,
    pub xys: Seq<(ScalarView, ScalarView)>,
    pub point3d_ids: Seq<i64>,
}

impl View for Image {
    type V = ImageView;

    open spec fn view(&self) -> ImageView {
        ImageView {
            id: self.id,
            quat: self.quat@,
            tvec: self.tvec@,
            camera_id: self.camera_id,
            name: self.name@,
            xys: self.xys@.map_values(|v: Vector2| v@),
            point3d_ids: self.point3d_ids@,
        }
    }
}

impl ImageView {
    /// Each observation has its point reference.
    pub open spec fn wf(&self) -> bool {
        self.xys.len() == self.point3d_ids.len()
    }
}

/// A 3D point of the sparse cloud and its track.
#[derive(Clone, Debug, PartialEq, Eq)]
pub struct Point3D {
    pub id: i64,
    pub xyz: Vector3,
    pub rgb: [u8; 3],
    pub error: Scalar,
    pub image_ids: Vec<i32>,
    pub point2d_idxs: Vec<i32>,
}

/// The view of a [`Point3D`].
pub struct PointView {
    pub id: i64,
    pub xyz: (ScalarView, ScalarView, ScalarView),
    pub rgb: Seq<u8>,
    pub error: ScalarView,
    pub image_ids: Seq<i32>,
    pub point2d_idxs: Seq<i32>,
}

impl View for Point3D {
    type V = PointView;

    open spec fn view(&self) -> PointView {
        PointView {
            id: self.id,
            xyz: self.xyz@,
            rgb: self.rgb@,
            error: self.error@,
            image_ids: self.image_ids@,
            point2d_idxs: self.point2d_idxs@,
        }
    }
}

impl PointView {
    /// The two halves of the track have one entry per observation.
    pub open spec fn wf(&self) -> bool {
        &&& self.rgb.len() == 3
        &&& self.image_ids.len() == self.point2d_idxs.len()
    }
}

/// Why a read failed. Every failure ends the read; nothing is returned
/// beside it.
#[derive(Clone, Copy, Debug, PartialEq, Eq, Structural)]
pub enum ColmapError {
    /// A numeric model id or a model name that the registry does not hold.
    UnknownCameraModel,
    /// A text camera line whose parameter tail disagrees with its model.
    ParamCountMismatch,
    /// A text line with too few tokens, or a tail that does not split into
    /// whole groups.
    MalformedRecord,
    /// Binary input that ends inside a record.
    UnexpectedEof,
    /// An image name whose bytes are not UTF-8.
    InvalidEncoding,
    /// A text token that does not convert to its numeric field; `line` is
    /// the index of the line in the input and `token` the index of the token
    /// in that line, both from zero.
    ParseError { line: usize, token: usize },
}

/// The view of a result: the view of what it holds, or its error.
pub open spec fn outcome<T: View>(r: Result<T, ColmapError>) -> Result<T::V, ColmapError> {
    match r {
        Ok(v) => Ok(v@),
        Err(e) => Err(e),
    }
}

/// The view of a result that also gives a position.
pub open spec fn outcome_at<T: View>(r: Result<(T, usize), ColmapError>) -> Result<
    (T::V, int),
    ColmapError,
> {
    match r {
        Ok((v, q)) => Ok((v@, q as int)),
        Err(e) => Err(e),
    }
}

/// The views of the cameras of a map.
pub open spec fn cameras_view(m: Map<i32, Camera>) -> Map<i32, CameraView> {
    m.map_values(|c: Camera| c@)
}

/// The views of the images of a map.
pub open spec fn images_view(m: Map<i32, Image>) -> Map<i32, ImageView> {
    m.map_values(|i: Image| i@)
}

/// The views of the points of a map.
pub open spec fn points_view(m: Map<i64, Point3D>) -> Map<i64, PointView> {
    m.map_values(|p: Point3D| p@)
}

impl Camera {
    /// The focal lengths (x, y), as the model's layout places them.
    pub fn focal(&self) -> (r: (&Scalar, &Scalar))
        requires
            self@.wf(),
        ensures
            r.0@ == self@.params[crate::model::layout_of(self.model).focal_x as int],
            r.1@ == self@.params[crate::model::layout_of(self.model).focal_y as int],
    {
        let (ix, iy): (usize, usize) = self.model.focal_indices();
        (&self.params[ix], &self.params[iy])
    }

    /// The principal point (x, y), as the model's layout places it.
    pub fn principal_point(&self) -> (r: (&Scalar, &Scalar))
        requires
            self@.wf(),
        ensures
            r.0@ == self@.params[crate::model::layout_of(self.model).principal_x as int],
            r.1@ == self@.params[crate::model::layout_of(self.model).principal_y as int],
    {
        let (ix, iy): (usize, usize) = self.model.principal_point_indices();
        (&self.params[ix], &self.params[iy])
    }
}

} // verus!
