//! The selection and editing state machine: which point (if any) is
//! selected, the session-wide read-only gate, and the edit buffer that
//! mirrors the description under edit. Every mutation of the document flows
//! through here, so the read-only gate can freeze point creation and
//! description commits.

use vstd::prelude::*;

use crate::coords::{
    frac_wf, in_viewport_defined, pos_wf, spec_in_viewport, spec_to_content, to_content_defined,
    viewport_wf, Frac, FracView, Pos, Viewport,
};
use crate::document::{IndexError, MapPointView, RegionData, SaveError};
use crate::format::spec_render_doc;
use crate::persist::{save_region, spec_backup_path, FileStore};

verus! {

/// The pointer button whose press is the designated "create a marker"
/// gesture.
pub const RIGHT_BUTTON: u32 = 3;

/// Session state for selection and editing. `selected_index` is `None` while
/// the region-level description is the editing target.
pub struct SelectionState {
    pub selected_index: Option<usize>,
    pub read_only: bool,
    pub edit_buffer: String,
}

/// A selection is valid for a document when any selected index refers to an
/// existing point. Points are append-only, so document mutations preserve
/// this.
pub open spec fn selection_valid(sel: SelectionState, doc: RegionData) -> bool {
    sel.selected_index matches Some(i) ==> (i as int) < doc@.points.len()
}

/// The floor conversion of a content coordinate to milli-units stays in
/// machine range.
pub open spec fn floor_defined(c: FracView) -> bool {
    -i128::MAX <= c.num * 1000 <= i128::MAX
}

/// The milli-unit coordinate a resolved content position is stored as: the
/// floor of a thousand times its value.
pub open spec fn content_milli(raw: FracView, origin: FracView, pan: FracView, zoom: FracView) -> int {
    let c = spec_to_content(raw, origin, pan, zoom);
    (c.num * 1000) / c.den
}

/// All machine-range conditions needed to resolve a press position to a
/// stored content position.
pub open spec fn press_resolve_defined(
    raw: crate::coords::PosView,
    viewport: crate::coords::ViewportView,
    pan: crate::coords::PosView,
    zoom: FracView,
) -> bool {
    &&& to_content_defined(raw.x, viewport.origin.x, pan.x, zoom)
    &&& to_content_defined(raw.y, viewport.origin.y, pan.y, zoom)
    &&& floor_defined(spec_to_content(raw.x, viewport.origin.x, pan.x, zoom))
    &&& floor_defined(spec_to_content(raw.y, viewport.origin.y, pan.y, zoom))
}

impl SelectionState {
    /// The initial state: nothing selected, editable, empty buffer.
    pub fn new() -> (s: SelectionState)
        ensures
            s.selected_index is None,
            !s.read_only,
            s.edit_buffer@ == Seq::<char>::empty(),
    {
        SelectionState { selected_index: None, read_only: false, edit_buffer: String::new() }
    }

    /// Selects the point at `index`; the edit buffer is overwritten with that
    /// point's description. Fails with [`IndexError::OutOfBounds`] and leaves
    /// the state unchanged when no such point exists.
    pub fn select_point(&mut self, doc: &RegionData, index: usize) -> (r: Result<(), IndexError>)
        ensures
            (index as int) < doc@.points.len() ==> {
                &&& r is Ok
                &&& final(self).selected_index == Some(index)
                &&& final(self).edit_buffer@ == doc@.points[index as int].description
                &&& final(self).read_only == old(self).read_only
                &&& selection_valid(*final(self), *doc)
            },
            (index as int) >= doc@.points.len() ==> r == Result::<(), IndexError>::Err(
                IndexError::OutOfBounds,
            ) && *final(self) == *old(self),
    {
        if index >= doc.points.len() {
            return Err(IndexError::OutOfBounds);
        }
        self.selected_index = Some(index);
        self.edit_buffer = doc.points[index].description.clone();
        Ok(())
    }

    /// Clears the selection; the edit buffer is overwritten with the
    /// region-level description, which becomes the editing target.
    pub fn clear_selection(&mut self, doc: &RegionData)
        ensures
            final(self).selected_index is None,
            final(self).edit_buffer@ == doc@.description,
            final(self).read_only == old(self).read_only,
            selection_valid(*final(self), *doc),
    {
        self.selected_index = None;
        self.edit_buffer = doc.description.clone();
    }

    /// Sets the session-wide read-only flag. Turning it off re-enables
    /// mutations; it does not revert anything.
    pub fn set_read_only(&mut self, value: bool)
        ensures
            final(self).read_only == value,
            final(self).selected_index == old(self).selected_index,
            final(self).edit_buffer == old(self).edit_buffer,
    {
        self.read_only = value;
    }

    /// A change notification from the text editor: the new buffer content is
    /// committed to the selected point's description, or to the region-level
    /// description when nothing is selected. A no-op while read-only.
    pub fn text_changed(&mut self, doc: &mut RegionData, text: &str)
        requires
            selection_valid(*old(self), *old(doc)),
        ensures
            old(self).read_only ==> *final(self) == *old(self) && *final(doc) == *old(doc),
            !old(self).read_only ==> {
                &&& final(self).selected_index == old(self).selected_index
                &&& final(self).read_only == old(self).read_only
                &&& final(self).edit_buffer@ == text@
                &&& match old(self).selected_index {
                    Some(i) => {
                        &&& final(doc)@.points == old(doc)@.points.update(
                            i as int,
                            MapPointView {
                                x_milli: old(doc)@.points[i as int].x_milli,
                                y_milli: old(doc)@.points[i as int].y_milli,
                                description: text@,
                            },
                        )
                        &&& final(doc)@.description == old(doc)@.description
                        &&& final(doc)@.name == old(doc)@.name
                        &&& final(doc)@.image == old(doc)@.image
                    },
                    None => {
                        &&& final(doc)@.description == text@
                        &&& final(doc)@.points == old(doc)@.points
                        &&& final(doc)@.name == old(doc)@.name
                        &&& final(doc)@.image == old(doc)@.image
                    },
                }
            },
            selection_valid(*final(self), *final(doc)),
    {
        if self.read_only {
            return;
        }
        self.edit_buffer = text.to_owned();
        match self.selected_index {
            Some(index) => {
                let r = doc.update_point_description(index, text.to_owned());
                proof {
                    assert(r is Ok);
                }
            },
            None => {
                doc.update_region_description(text.to_owned());
            },
        }
    }

    /// Decides what a pointer press means. A new point is created only when
    /// the press uses the designated create gesture, the raw position falls
    /// inside the map viewport, and the session is not read-only; the
    /// resolved content position is stored in milli-units (or nothing
    /// happens when it falls outside the storable range). The selection is
    /// not moved to the new point.
    pub fn handle_press(
        &self,
        doc: &mut RegionData,
        button: u32,
        raw: Pos,
        viewport: Viewport,
        pan: Pos,
        zoom: Frac,
    ) -> (r: Option<usize>)
        requires
            pos_wf(raw@),
            viewport_wf(viewport@),
            pos_wf(pan@),
            frac_wf(zoom@),
            zoom@.num != 0,
            in_viewport_defined(viewport@, raw@),
            (button == RIGHT_BUTTON && !self.read_only && spec_in_viewport(viewport@, raw@))
                ==> press_resolve_defined(raw@, viewport@, pan@, zoom@),
        ensures
            ({
                let create = button == RIGHT_BUTTON && spec_in_viewport(viewport@, raw@)
                    && !self.read_only;
                let qx = content_milli(raw@.x, viewport@.origin.x, pan@.x, zoom@);
                let qy = content_milli(raw@.y, viewport@.origin.y, pan@.y, zoom@);
                if create && i64::MIN <= qx <= i64::MAX && i64::MIN <= qy <= i64::MAX {
                    &&& final(doc)@.points == old(doc)@.points.push(
                        MapPointView { x_milli: qx, y_milli: qy, description: Seq::<char>::empty() },
                    )
                    &&& final(doc)@.name == old(doc)@.name
                    &&& final(doc)@.image == old(doc)@.image
                    &&& final(doc)@.description == old(doc)@.description
                    &&& r == Some(old(doc).points.len())
                } else {
                    *final(doc) == *old(doc) && r is None
                }
            }),
    {
        if button != RIGHT_BUTTON || self.read_only {
            return None;
        }
        if !viewport.contains(raw) {
            return None;
        }
        let content = crate::coords::to_content(raw, viewport.origin, pan, zoom);
        let x_milli = match content.x.floor_milli() {
            Some(v) => v,
            None => {
                return None;
            },
        };
        let y_milli = match content.y.floor_milli() {
            Some(v) => v,
            None => {
                return None;
            },
        };
        doc.add_point(x_milli, y_milli, self.read_only)
    }

    /// An explicit save request: runs the backup-then-overwrite protocol,
    /// unless the session is read-only, in which case nothing is written and
    /// the request reports `Ok(false)`.
    pub fn request_save(&self, doc: &RegionData, store: &mut FileStore, path: &str) -> (r: Result<
        bool,
        SaveError,
    >)
        requires
            old(store).wf(),
        ensures
            final(store).wf(),
            self.read_only ==> r == Result::<bool, SaveError>::Ok(false) && *final(store) == *old(
                store,
            ),
            !self.read_only && old(store)@.contains_key(path@) ==> r == Result::<
                bool,
                SaveError,
            >::Ok(true) && final(store)@ == old(store)@.insert(
                spec_backup_path(path@),
                old(store)@[path@],
            ).insert(path@, spec_render_doc(doc@)),
            !self.read_only && !old(store)@.contains_key(path@) ==> r == Result::<
                bool,
                SaveError,
            >::Err(SaveError::BackupFailed) && *final(store) == *old(store),
    {
        if self.read_only {
            return Ok(false);
        }
        match save_region(store, path, doc) {
            Ok(()) => Ok(true),
            Err(e) => Err(e),
        }
    }
}

} // verus!
