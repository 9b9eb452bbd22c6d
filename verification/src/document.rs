//! The region document: an ordered list of annotated map points together
//! with the region's name, backing image reference and description.
//!
//! Coordinates are content-space positions stored in thousandths of a
//! content-space unit ("milli-units"), relative to the unscaled, unscrolled
//! image origin. Duplicate positions are permitted; points are append-only.

use vstd::prelude::*;

verus! {

/// Error for operations that reference a point index that does not exist.
#[derive(Debug, Clone, Copy, PartialEq, Eq, Structural)]
pub enum IndexError {
    OutOfBounds,
}

/// Error raised when a document cannot be loaded.
#[derive(Debug, Clone, Copy, PartialEq, Eq, Structural)]
pub enum LoadError {
    /// There is no file at the given path.
    FileNotFound,
    /// The file's content does not match the expected schema.
    Malformed,
}

/// Error raised when a document cannot be saved.
#[derive(Debug, Clone, Copy, PartialEq, Eq, Structural)]
pub enum SaveError {
    /// The backup step failed because there is nothing to back up at the
    /// target path; the overwrite is not attempted.
    BackupFailed,
}

/// A single annotated location on the map.
pub struct MapPoint {
    /// Content-space x position, in milli-units.
    pub x_milli: i64,
    /// Content-space y position, in milli-units.
    pub y_milli: i64,
    /// Free-form text attached to this point.
    pub description: String,
}

/// The mathematical value of a [`MapPoint`].
pub ghost struct MapPointView {
    pub x_milli: int,
    pub y_milli: int,
    pub description: Seq<char>,
}

impl View for MapPoint {
    type V = MapPointView;

    open spec fn view(&self) -> MapPointView {
        MapPointView {
            x_milli: self.x_milli as int,
            y_milli: self.y_milli as int,
            description: self.description@,
        }
    }
}

impl MapPoint {
    /// A fresh point at the given content-space position, with an empty
    /// description.
    pub fn new(x_milli: i64, y_milli: i64) -> (p: MapPoint)
        ensures
            p@.x_milli == x_milli as int,
            p@.y_milli == y_milli as int,
            p@.description == Seq::<char>::empty(),
    {
        MapPoint { x_milli, y_milli, description: String::new() }
    }
}

/// The aggregate owned by a session: region name, backing image reference,
/// region-level description, and the ordered list of map points.
pub struct RegionData {
    pub name: String,
    pub image: String,
    pub description: String,
    pub points: Vec<MapPoint>,
}

/// The mathematical value of a [`RegionData`].
pub ghost struct RegionDataView {
    pub name: Seq<char>,
    pub image: Seq<char>,
    pub description: Seq<char>,
    pub points: Seq<MapPointView>,
}

impl View for RegionData {
    type V = RegionDataView;

    open spec fn view(&self) -> RegionDataView {
        RegionDataView {
            name: self.name@,
            image: self.image@,
            description: self.description@,
            points: self.points@.map_values(|p: MapPoint| p@),
        }
    }
}

impl RegionData {
    /// An empty document: no name, no image reference, no description, no
    /// points.
    pub fn new() -> (d: RegionData)
        ensures
            d@.name == Seq::<char>::empty(),
            d@.image == Seq::<char>::empty(),
            d@.description == Seq::<char>::empty(),
            d@.points == Seq::<MapPointView>::empty(),
    {
        let d = RegionData {
            name: String::new(),
            image: String::new(),
            description: String::new(),
            points: Vec::new(),
        };
        proof {
            assert(d@.points =~= Seq::<MapPointView>::empty());
        }
        d
    }

    /// Appends a new point with an empty description at the given
    /// content-space position, unless the session is read-only. Returns the
    /// new point's index (always the last index: points are append-only).
    pub fn add_point(&mut self, x_milli: i64, y_milli: i64, read_only: bool) -> (r: Option<usize>)
        ensures
            read_only ==> *final(self) == *old(self) && r is None,
            !read_only ==> {
                &&& final(self)@.points == old(self)@.points.push(
                    MapPointView {
                        x_milli: x_milli as int,
                        y_milli: y_milli as int,
                        description: Seq::<char>::empty(),
                    },
                )
                &&& final(self)@.name == old(self)@.name
                &&& final(self)@.image == old(self)@.image
                &&& final(self)@.description == old(self)@.description
                &&& r == Some(old(self).points.len())
            },
    {
        if read_only {
            return None;
        }
        let index = self.points.len();
        let p = MapPoint::new(x_milli, y_milli);
        let ghost pv = p@;
        self.points.push(p);
        proof {
            assert(self@.points =~= old(self)@.points.push(pv));
        }
        Some(index)
    }

    /// Replaces the description of the point at `index`; fails with
    /// [`IndexError::OutOfBounds`] when no such point exists.
    pub fn update_point_description(&mut self, index: usize, text: String) -> (r: Result<
        (),
        IndexError,
    >)
        ensures
            index < old(self)@.points.len() ==> {
                &&& r is Ok
                &&& final(self)@.points == old(self)@.points.update(
                    index as int,
                    MapPointView {
                        x_milli: old(self)@.points[index as int].x_milli,
                        y_milli: old(self)@.points[index as int].y_milli,
                        description: text@,
                    },
                )
                &&& final(self)@.name == old(self)@.name
                &&& final(self)@.image == old(self)@.image
                &&& final(self)@.description == old(self)@.description
            },
            index >= old(self)@.points.len() ==> r == Result::<(), IndexError>::Err(
                IndexError::OutOfBounds,
            ) && *final(self) == *old(self),
    {
        if index >= self.points.len() {
            return Err(IndexError::OutOfBounds);
        }
        let x_milli = self.points[index].x_milli;
        let y_milli = self.points[index].y_milli;
        self.points.set(index, MapPoint { x_milli, y_milli, description: text });
        proof {
            assert(self@.points =~= old(self)@.points.update(
                index as int,
                MapPointView {
                    x_milli: old(self)@.points[index as int].x_milli,
                    y_milli: old(self)@.points[index as int].y_milli,
                    description: text@,
                },
            ));
        }
        Ok(())
    }

    /// Replaces the region-level description.
    pub fn update_region_description(&mut self, text: String)
        ensures
            final(self)@.description == text@,
            final(self)@.name == old(self)@.name,
            final(self)@.image == old(self)@.image,
            final(self)@.points == old(self)@.points,
    {
        self.description = text;
    }
}

} // verus!
