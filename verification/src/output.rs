use vstd::prelude::*;
use crate::text::format_u32;
use crate::capture::Output;
use crate::scaling::Scale;
use crate::transform::Transform;
use crate::transform::apply_output_transform;
use crate::transform::spec_transformed_width;
use crate::transform::spec_transformed_height;

verus! {

/// Everything the registry tracks about one output the compositor
/// advertises: physical mode data, the logical (xdg-output) data when
/// known, and the effective scale derived from the two.
#[derive(Debug, Clone, PartialEq, Eq)]
pub struct OutputInfo {
    pub name: String,
    /// Physical mode size in pixels.
    pub width: i32,
    pub height: i32,
    /// Physical position.
    pub x: i32,
    pub y: i32,
    /// The integer scale factor the compositor announced.
    pub scale: i32,
    pub transform: Transform,
    pub logical_x: i32,
    pub logical_y: i32,
    pub logical_width: i32,
    pub logical_height: i32,
    /// Logical geometry has been received (or guessed).
    pub logical_scale_known: bool,
    /// The effective, possibly fractional scale from physical to logical.
    pub logical_scale: Scale,
    pub description: Option<String>,
}

impl OutputInfo {
    /// Mode sizes are non-negative, the integer scale is at least one, and
    /// the derived scale is a valid ratio.
    pub open spec fn wf(&self) -> bool {
        &&& self.width >= 0
        &&& self.height >= 0
        &&& self.scale >= 1
        &&& self.logical_scale.wf()
    }

    /// This output's state after the effective scale is re-derived: the
    /// transformed physical major dimension over the logical width, left
    /// unchanged while any of the dimensions involved is not positive.
    pub open spec fn spec_with_updated_scale(self) -> OutputInfo {
        if self.width <= 0 || self.height <= 0 || self.logical_width <= 0 || self.logical_height
            <= 0 {
            self
        } else {
            OutputInfo {
                logical_scale: Scale {
                    num: spec_transformed_width(
                        self.width as int,
                        self.height as int,
                        self.transform,
                    ) as u32,
                    den: self.logical_width as u32,
                },
                ..self
            }
        }
    }

    /// Re-derives the effective scale from the physical mode size and the
    /// logical size, taking the output transform into account; does nothing
    /// while any of the dimensions involved is not positive.
    pub fn update_logical_scale(&mut self)
        requires
            old(self).wf(),
        ensures
            *final(self) == old(self).spec_with_updated_scale(),
            final(self).wf(),
    {
        if self.width <= 0 || self.height <= 0 || self.logical_width <= 0 || self.logical_height
            <= 0 {
            return ;
        }
        let mut physical_width = self.width;
        let mut physical_height = self.height;
        apply_output_transform(self.transform, &mut physical_width, &mut physical_height);
        self.logical_scale = Scale::new(physical_width as u32, self.logical_width as u32);
    }
}


/// One registry entry: the compositor-assigned numeric id of the output
/// and everything tracked about it.
#[derive(Debug, Clone, PartialEq, Eq)]
pub struct OutputEntry {
    pub id: u32,
    pub info: OutputInfo,
}

/// The collection of discovered outputs keyed by their compositor-assigned
/// ids, with a parallel mapping from outputs to their xdg-output handles.
#[derive(Debug, Clone, PartialEq, Eq)]
pub struct OutputRegistry {
    pub entries: Vec<OutputEntry>,
    /// Pairs of an output id and the id of its xdg-output handle.
    pub xdg_links: Vec<(u32, u32)>,
}

impl OutputRegistry {
    /// Ids are pairwise distinct and every tracked record is well formed.
    pub open spec fn wf(&self) -> bool {
        &&& forall|i: int, j: int|
            0 <= i < j < self.entries@.len() ==> self.entries@[i].id != self.entries@[j].id
        &&& forall|i: int| 0 <= i < self.entries@.len() ==> (#[trigger] self.entries@[i]).info.wf()
    }

    /// Some tracked output has this id.
    pub open spec fn spec_has_output(&self, id: u32) -> bool {
        exists|i: int| 0 <= i < self.entries@.len() && (#[trigger] self.entries@[i]).id == id
    }

    pub fn new() -> (r: Self)
        ensures
            r.wf(),
            r.entries@ == Seq::<OutputEntry>::empty(),
            r.xdg_links@ == Seq::<(u32, u32)>::empty(),
    {
        Self { entries: Vec::new(), xdg_links: Vec::new() }
    }

    /// Empties the registry; a refresh starts from a clean slate.
    pub fn clear(&mut self)
        ensures
            final(self).wf(),
            final(self).entries@ == Seq::<OutputEntry>::empty(),
            final(self).xdg_links@ == Seq::<(u32, u32)>::empty(),
    {
        self.entries.clear();
        self.xdg_links.clear();
    }

    /// The position of the output with this id, if it is tracked.
    pub fn index_of(&self, id: u32) -> (r: Option<usize>)
        ensures
            match r {
                Some(j) => j < self.entries@.len() && self.entries@[j as int].id == id,
                None => !self.spec_has_output(id),
            },
    {
        let mut j: usize = 0;
        while j < self.entries.len()
            invariant
                j <= self.entries@.len(),
                forall|i: int| 0 <= i < j ==> (#[trigger] self.entries@[i]).id != id,
            decreases self.entries@.len() - j,
        {
            if self.entries[j].id == id {
                return Some(j);
            }
            j += 1;
        }
        None
    }

    /// Starts tracking a newly advertised output under a fresh id with a
    /// placeholder record: a name derived from the global's numeric name, a
    /// unit scale, the normal transform and unknown geometry. An id that is
    /// already tracked is left as it is.
    pub fn add_output(&mut self, id: u32, global_name: u32)
        requires
            old(self).wf(),
        ensures
            final(self).wf(),
            final(self).xdg_links == old(self).xdg_links,
            old(self).spec_has_output(id) ==> final(self).entries == old(self).entries,
            !old(self).spec_has_output(id) ==> {
                &&& final(self).entries@.len() == old(self).entries@.len() + 1
                &&& final(self).entries@.take(old(self).entries@.len() as int) == old(
                    self,
                ).entries@
                &&& {
                    let e = final(self).entries@.last();
                    &&& e.id == id
                    &&& e.info.name@ == "output-"@ + crate::text::spec_fmt_nat(global_name as int)
                    &&& e.info.width == 0 && e.info.height == 0
                    &&& e.info.x == 0 && e.info.y == 0
                    &&& e.info.scale == 1
                    &&& e.info.transform == Transform::Normal
                    &&& e.info.logical_x == 0 && e.info.logical_y == 0
                    &&& e.info.logical_width == 0 && e.info.logical_height == 0
                    &&& e.info.logical_scale_known == false
                    &&& e.info.logical_scale == (Scale { num: 1, den: 1 })
                    &&& e.info.description is None
                }
            },
    {
        if let Some(_) = self.index_of(id) {
            return ;
        }
        let digits = format_u32(global_name);
        let name = "output-".to_owned().concat(digits.as_str());
        let info = OutputInfo {
            name,
            width: 0,
            height: 0,
            x: 0,
            y: 0,
            scale: 1,
            transform: Transform::Normal,
            logical_x: 0,
            logical_y: 0,
            logical_width: 0,
            logical_height: 0,
            logical_scale_known: false,
            logical_scale: Scale { num: 1, den: 1 },
            description: None,
        };
        let entry = OutputEntry { id, info };
        self.entries.push(entry);
        proof {
            assert(final(self).entries@.take(old(self).entries@.len() as int) =~= old(
                self,
            ).entries@);
        }
    }

    /// Applies an output geometry event: records the physical position and
    /// the transform, mirrors the position into the logical fields while no
    /// logical geometry is known, and re-derives the effective scale. An
    /// unknown id changes nothing.
    pub fn apply_geometry_event(&mut self, id: u32, x: i32, y: i32, transform: Option<Transform>)
        requires
            old(self).wf(),
        ensures
            final(self).wf(),
            final(self).xdg_links == old(self).xdg_links,
            final(self).entries@.len() == old(self).entries@.len(),
            forall|j: int|
                0 <= j < old(self).entries@.len() && (#[trigger] old(self).entries@[j]).id != id
                    ==> final(self).entries@[j] == old(self).entries@[j],
            forall|j: int|
                0 <= j < old(self).entries@.len() && (#[trigger] old(self).entries@[j]).id == id
                    ==> final(self).entries@[j] == (OutputEntry {
                    info: spec_geometry_applied(old(self).entries@[j].info, x, y, transform),
                    ..old(self).entries@[j]
                }),
    {
        let maybe = self.index_of(id);
        if let Some(j) = maybe {
            self.entries[j].info.x = x;
            self.entries[j].info.y = y;
            if let Some(t) = transform {
                self.entries[j].info.transform = t;
            }
            if !self.entries[j].info.logical_scale_known {
                self.entries[j].info.logical_x = x;
                self.entries[j].info.logical_y = y;
            }
            self.entries[j].info.update_logical_scale();
            proof {
                assert forall|k: int|
                    0 <= k < old(self).entries@.len() && (#[trigger] old(self).entries@[k]).id
                        == id implies final(self).entries@[k] == (OutputEntry {
                        info: spec_geometry_applied(old(self).entries@[k].info, x, y, transform),
                        ..old(self).entries@[k]
                    }) by {
                    if k != j as int {
                        assert(old(self).entries@[k].id == old(self).entries@[j as int].id);
                        assert(false);
                    }
                }
            }
        }
    }
}

/// An output record after a geometry event: the physical position and the
/// transform updated, the logical position mirrored from the physical one
/// while no logical geometry is known, and the effective scale re-derived.
pub open spec fn spec_geometry_applied(
    o: OutputInfo,
    x: i32,
    y: i32,
    transform: Option<Transform>,
) -> OutputInfo {
    let o1 = OutputInfo {
        x,
        y,
        transform: if transform is Some {
            transform.unwrap()
        } else {
            o.transform
        },
        logical_x: if !o.logical_scale_known {
            x
        } else {
            o.logical_x
        },
        logical_y: if !o.logical_scale_known {
            y
        } else {
            o.logical_y
        },
        ..o
    };
    o1.spec_with_updated_scale()
}

impl OutputRegistry {
    /// Applies an output mode event: records the physical size, mirrors it
    /// into the logical fields while no logical geometry is known, and
    /// re-derives the effective scale. Negative sizes are rejected. An unknown id changes nothing.
    pub fn apply_mode_event(&mut self, id: u32, width: i32, height: i32)
        requires
            old(self).wf(),
        ensures
            final(self).wf(),
            final(self).xdg_links == old(self).xdg_links,
            final(self).entries@.len() == old(self).entries@.len(),
            forall|j: int|
                0 <= j < old(self).entries@.len() && (#[trigger] old(self).entries@[j]).id != id
                    ==> final(self).entries@[j] == old(self).entries@[j],
            forall|j: int|
                0 <= j < old(self).entries@.len() && (#[trigger] old(self).entries@[j]).id == id
                    ==> final(self).entries@[j] == (OutputEntry {
                    info: spec_mode_applied(old(self).entries@[j].info, width, height),
                    ..old(self).entries@[j]
                }),
    {
        let maybe = self.index_of(id);
        if let Some(j) = maybe {
            if width >= 0 && height >= 0 {
                self.entries[j].info.width = width;
                self.entries[j].info.height = height;
                if !self.entries[j].info.logical_scale_known {
                    self.entries[j].info.logical_width = width;
                    self.entries[j].info.logical_height = height;
                }
                self.entries[j].info.update_logical_scale();
            }
            proof {
                assert forall|k: int|
                    0 <= k < old(self).entries@.len() && (#[trigger] old(self).entries@[k]).id
                        == id implies final(self).entries@[k] == (OutputEntry {
                        info: spec_mode_applied(old(self).entries@[k].info, width, height),
                        ..old(self).entries@[k]
                    }) by {
                    if k != j as int {
                        assert(old(self).entries@[k].id == old(self).entries@[j as int].id);
                        assert(false);
                    }
                }
            }
        }
    }

    /// Applies an output scale event: records the integer scale and
    /// re-derives the effective scale. Factors below one are rejected, as
    /// the integer scale is at least one. An unknown id changes nothing.
    pub fn apply_scale_event(&mut self, id: u32, factor: i32)
        requires
            old(self).wf(),
        ensures
            final(self).wf(),
            final(self).xdg_links == old(self).xdg_links,
            final(self).entries@.len() == old(self).entries@.len(),
            forall|j: int|
                0 <= j < old(self).entries@.len() && (#[trigger] old(self).entries@[j]).id != id
                    ==> final(self).entries@[j] == old(self).entries@[j],
            forall|j: int|
                0 <= j < old(self).entries@.len() && (#[trigger] old(self).entries@[j]).id == id
                    ==> final(self).entries@[j] == (OutputEntry {
                    info: spec_scale_applied(old(self).entries@[j].info, factor),
                    ..old(self).entries@[j]
                }),
    {
        let maybe = self.index_of(id);
        if let Some(j) = maybe {
            if factor >= 1 {
                self.entries[j].info.scale = factor;
                self.entries[j].info.update_logical_scale();
            }
            proof {
                assert forall|k: int|
                    0 <= k < old(self).entries@.len() && (#[trigger] old(self).entries@[k]).id
                        == id implies final(self).entries@[k] == (OutputEntry {
                        info: spec_scale_applied(old(self).entries@[k].info, factor),
                        ..old(self).entries@[k]
                    }) by {
                    if k != j as int {
                        assert(old(self).entries@[k].id == old(self).entries@[j as int].id);
                        assert(false);
                    }
                }
            }
        }
    }

    /// Applies an output name event: stores the stable name. An unknown id changes nothing.
    pub fn apply_name_event(&mut self, id: u32, name: String)
        requires
            old(self).wf(),
        ensures
            final(self).wf(),
            final(self).xdg_links == old(self).xdg_links,
            final(self).entries@.len() == old(self).entries@.len(),
            forall|j: int|
                0 <= j < old(self).entries@.len() && (#[trigger] old(self).entries@[j]).id != id
                    ==> final(self).entries@[j] == old(self).entries@[j],
            forall|j: int|
                0 <= j < old(self).entries@.len() && (#[trigger] old(self).entries@[j]).id == id
                    ==> final(self).entries@[j] == (OutputEntry {
                    info: spec_name_applied(old(self).entries@[j].info, name),
                    ..old(self).entries@[j]
                }),
    {
        let maybe = self.index_of(id);
        if let Some(j) = maybe {
            self.entries[j].info.name = name;
            proof {
                assert forall|k: int|
                    0 <= k < old(self).entries@.len() && (#[trigger] old(self).entries@[k]).id
                        == id implies final(self).entries@[k] == (OutputEntry {
                        info: spec_name_applied(old(self).entries@[k].info, name),
                        ..old(self).entries@[k]
                    }) by {
                    if k != j as int {
                        assert(old(self).entries@[k].id == old(self).entries@[j as int].id);
                        assert(false);
                    }
                }
            }
        }
    }

    /// Applies an output description event: stores the description. An unknown id changes nothing.
    pub fn apply_description_event(&mut self, id: u32, description: String)
        requires
            old(self).wf(),
        ensures
            final(self).wf(),
            final(self).xdg_links == old(self).xdg_links,
            final(self).entries@.len() == old(self).entries@.len(),
            forall|j: int|
                0 <= j < old(self).entries@.len() && (#[trigger] old(self).entries@[j]).id != id
                    ==> final(self).entries@[j] == old(self).entries@[j],
            forall|j: int|
                0 <= j < old(self).entries@.len() && (#[trigger] old(self).entries@[j]).id == id
                    ==> final(self).entries@[j] == (OutputEntry {
                    info: spec_description_applied(old(self).entries@[j].info, description),
                    ..old(self).entries@[j]
                }),
    {
        let maybe = self.index_of(id);
        if let Some(j) = maybe {
            self.entries[j].info.description = Some(description);
            proof {
                assert forall|k: int|
                    0 <= k < old(self).entries@.len() && (#[trigger] old(self).entries@[k]).id
                        == id implies final(self).entries@[k] == (OutputEntry {
                        info: spec_description_applied(old(self).entries@[k].info, description),
                        ..old(self).entries@[k]
                    }) by {
                    if k != j as int {
                        assert(old(self).entries@[k].id == old(self).entries@[j as int].id);
                        assert(false);
                    }
                }
            }
        }
    }

    /// Records that this output's xdg-output handle has the given id.
    pub fn register_xdg(&mut self, output_id: u32, xdg_id: u32)
        requires
            old(self).wf(),
        ensures
            final(self).wf(),
            final(self).entries == old(self).entries,
            final(self).xdg_links@ == old(self).xdg_links@.push((output_id, xdg_id)),
    {
        self.xdg_links.push((output_id, xdg_id));
    }

    /// The id of the output whose xdg-output handle has this id, if any.
    pub fn output_of_xdg(&self, xdg_id: u32) -> (r: Option<u32>)
        ensures
            r == spec_xdg_parent(self.xdg_links@, xdg_id),
    {
        proof {
            assert(self.xdg_links@.skip(0) =~= self.xdg_links@);
        }
        let mut j: usize = 0;
        while j < self.xdg_links.len()
            invariant
                j <= self.xdg_links@.len(),
                spec_xdg_parent(self.xdg_links@, xdg_id) == spec_xdg_parent(
                    self.xdg_links@.skip(j as int),
                    xdg_id,
                ),
            decreases self.xdg_links@.len() - j,
        {
            proof {
                assert(self.xdg_links@.skip(j as int)[0] == self.xdg_links@[j as int]);
            }
            if self.xdg_links[j].1 == xdg_id {
                return Some(self.xdg_links[j].0);
            }
            proof {
                assert(self.xdg_links@.skip(j as int).skip(1) =~= self.xdg_links@.skip(
                    j as int + 1,
                ));
            }
            j += 1;
        }
        proof {
            assert(self.xdg_links@.skip(j as int) =~= Seq::<(u32, u32)>::empty());
        }
        None
    }
}

/// An output record after a mode event: the physical size updated, the
/// logical size mirrored from the physical one while no logical geometry is
/// known, and the effective scale re-derived; negative sizes are rejected.
pub open spec fn spec_mode_applied(o: OutputInfo, width: i32, height: i32) -> OutputInfo {
    if width < 0 || height < 0 {
        o
    } else {
        let o1 = OutputInfo {
            width,
            height,
            logical_width: if !o.logical_scale_known {
                width
            } else {
                o.logical_width
            },
            logical_height: if !o.logical_scale_known {
                height
            } else {
                o.logical_height
            },
            ..o
        };
        o1.spec_with_updated_scale()
    }
}

/// An output record after a scale event: the integer scale updated and the
/// effective scale re-derived; factors below one are rejected.
pub open spec fn spec_scale_applied(o: OutputInfo, factor: i32) -> OutputInfo {
    if factor < 1 {
        o
    } else {
        (OutputInfo { scale: factor, ..o }).spec_with_updated_scale()
    }
}

/// An output record after a name event.
pub open spec fn spec_name_applied(o: OutputInfo, name: String) -> OutputInfo {
    OutputInfo { name, ..o }
}

/// An output record after a description event.
pub open spec fn spec_description_applied(o: OutputInfo, description: String) -> OutputInfo {
    OutputInfo { description: Some(description), ..o }
}

/// The output id the xdg-output handle with this id belongs to: the first
/// link that carries it, if any.
pub open spec fn spec_xdg_parent(links: Seq<(u32, u32)>, xdg_id: u32) -> Option<u32>
    decreases links.len(),
{
    if links.len() == 0 {
        None
    } else if links[0].1 == xdg_id {
        Some(links[0].0)
    } else {
        spec_xdg_parent(links.skip(1), xdg_id)
    }
}

impl OutputRegistry {
    /// Applies an xdg-output logical-position event: records the logical
    /// position, marks the logical geometry known, and re-derives the
    /// effective scale. An xdg-output id with no known parent output changes nothing.
    pub fn apply_xdg_logical_position_event(&mut self, xdg_id: u32, x: i32, y: i32)
        requires
            old(self).wf(),
        ensures
            final(self).wf(),
            final(self).xdg_links == old(self).xdg_links,
            final(self).entries@.len() == old(self).entries@.len(),
            forall|j: int|
                0 <= j < old(self).entries@.len() && (spec_xdg_parent(
                    old(self).xdg_links@,
                    xdg_id,
                ) is None || (#[trigger] old(self).entries@[j]).id != spec_xdg_parent(
                    old(self).xdg_links@,
                    xdg_id,
                ).unwrap()) ==> final(self).entries@[j] == old(self).entries@[j],
            forall|j: int|
                0 <= j < old(self).entries@.len() && spec_xdg_parent(
                    old(self).xdg_links@,
                    xdg_id,
                ) is Some && (#[trigger] old(self).entries@[j]).id == spec_xdg_parent(
                    old(self).xdg_links@,
                    xdg_id,
                ).unwrap() ==> final(self).entries@[j] == (OutputEntry {
                    info: spec_xdg_position_applied(old(self).entries@[j].info, x, y),
                    ..old(self).entries@[j]
                }),
    {
        let parent = self.output_of_xdg(xdg_id);
        if let Some(id) = parent {
            let maybe = self.index_of(id);
            if let Some(j) = maybe {
                self.entries[j].info.logical_x = x;
                self.entries[j].info.logical_y = y;
                self.entries[j].info.logical_scale_known = true;
                self.entries[j].info.update_logical_scale();
                proof {
                    assert forall|k: int|
                        0 <= k < old(self).entries@.len() && (#[trigger] old(
                            self,
                        ).entries@[k]).id == id implies final(self).entries@[k] == (OutputEntry {
                            info: spec_xdg_position_applied(old(self).entries@[k].info, x, y),
                            ..old(self).entries@[k]
                        }) by {
                        if k != j as int {
                            assert(old(self).entries@[k].id == old(self).entries@[j as int].id);
                            assert(false);
                        }
                    }
                }
            }
        }
    }

    /// Applies an xdg-output logical-size event: records the logical size,
    /// marks the logical geometry known, and re-derives the effective
    /// scale. An xdg-output id with no known parent output changes nothing.
    pub fn apply_xdg_logical_size_event(&mut self, xdg_id: u32, width: i32, height: i32)
        requires
            old(self).wf(),
        ensures
            final(self).wf(),
            final(self).xdg_links == old(self).xdg_links,
            final(self).entries@.len() == old(self).entries@.len(),
            forall|j: int|
                0 <= j < old(self).entries@.len() && (spec_xdg_parent(
                    old(self).xdg_links@,
                    xdg_id,
                ) is None || (#[trigger] old(self).entries@[j]).id != spec_xdg_parent(
                    old(self).xdg_links@,
                    xdg_id,
                ).unwrap()) ==> final(self).entries@[j] == old(self).entries@[j],
            forall|j: int|
                0 <= j < old(self).entries@.len() && spec_xdg_parent(
                    old(self).xdg_links@,
                    xdg_id,
                ) is Some && (#[trigger] old(self).entries@[j]).id == spec_xdg_parent(
                    old(self).xdg_links@,
                    xdg_id,
                ).unwrap() ==> final(self).entries@[j] == (OutputEntry {
                    info: spec_xdg_size_applied(old(self).entries@[j].info, width, height),
                    ..old(self).entries@[j]
                }),
    {
        let parent = self.output_of_xdg(xdg_id);
        if let Some(id) = parent {
            let maybe = self.index_of(id);
            if let Some(j) = maybe {
                self.entries[j].info.logical_width = width;
                self.entries[j].info.logical_height = height;
                self.entries[j].info.logical_scale_known = true;
                self.entries[j].info.update_logical_scale();
                proof {
                    assert forall|k: int|
                        0 <= k < old(self).entries@.len() && (#[trigger] old(
                            self,
                        ).entries@[k]).id == id implies final(self).entries@[k] == (OutputEntry {
                            info: spec_xdg_size_applied(old(self).entries@[k].info, width, height),
                            ..old(self).entries@[k]
                        }) by {
                        if k != j as int {
                            assert(old(self).entries@[k].id == old(self).entries@[j as int].id);
                            assert(false);
                        }
                    }
                }
            }
        }
    }

    /// Applies an xdg-output name event: replaces the name only while it is
    /// still empty or the placeholder derived from the numeric global name. An xdg-output id with no known parent output changes nothing.
    pub fn apply_xdg_name_event(&mut self, xdg_id: u32, name: String)
        requires
            old(self).wf(),
        ensures
            final(self).wf(),
            final(self).xdg_links == old(self).xdg_links,
            final(self).entries@.len() == old(self).entries@.len(),
            forall|j: int|
                0 <= j < old(self).entries@.len() && (spec_xdg_parent(
                    old(self).xdg_links@,
                    xdg_id,
                ) is None || (#[trigger] old(self).entries@[j]).id != spec_xdg_parent(
                    old(self).xdg_links@,
                    xdg_id,
                ).unwrap()) ==> final(self).entries@[j] == old(self).entries@[j],
            forall|j: int|
                0 <= j < old(self).entries@.len() && spec_xdg_parent(
                    old(self).xdg_links@,
                    xdg_id,
                ) is Some && (#[trigger] old(self).entries@[j]).id == spec_xdg_parent(
                    old(self).xdg_links@,
                    xdg_id,
                ).unwrap() ==> final(self).entries@[j] == (OutputEntry {
                    info: spec_xdg_name_applied(old(self).entries@[j].info, name),
                    ..old(self).entries@[j]
                }),
    {
        let parent = self.output_of_xdg(xdg_id);
        if let Some(id) = parent {
            let maybe = self.index_of(id);
            if let Some(j) = maybe {
                let is_default = {
                    let name_len = self.entries[j].info.name.as_str().unicode_len();
                    if name_len == 0 {
                        true
                    } else if name_len >= 7 {
                        let prefix = self.entries[j].info.name.as_str().substring_char(0, 7);
                        prefix.to_owned().eq(&"output-".to_owned())
                    } else {
                        false
                    }
                };
                if is_default {
                    self.entries[j].info.name = name;
                }
                proof {
                    assert forall|k: int|
                        0 <= k < old(self).entries@.len() && (#[trigger] old(
                            self,
                        ).entries@[k]).id == id implies final(self).entries@[k] == (OutputEntry {
                            info: spec_xdg_name_applied(old(self).entries@[k].info, name),
                            ..old(self).entries@[k]
                        }) by {
                        if k != j as int {
                            assert(old(self).entries@[k].id == old(self).entries@[j as int].id);
                            assert(false);
                        }
                    }
                }
            }
        }
    }

    /// Applies an xdg-output description event: stores the description. An xdg-output id with no known parent output changes nothing.
    pub fn apply_xdg_description_event(&mut self, xdg_id: u32, description: String)
        requires
            old(self).wf(),
        ensures
            final(self).wf(),
            final(self).xdg_links == old(self).xdg_links,
            final(self).entries@.len() == old(self).entries@.len(),
            forall|j: int|
                0 <= j < old(self).entries@.len() && (spec_xdg_parent(
                    old(self).xdg_links@,
                    xdg_id,
                ) is None || (#[trigger] old(self).entries@[j]).id != spec_xdg_parent(
                    old(self).xdg_links@,
                    xdg_id,
                ).unwrap()) ==> final(self).entries@[j] == old(self).entries@[j],
            forall|j: int|
                0 <= j < old(self).entries@.len() && spec_xdg_parent(
                    old(self).xdg_links@,
                    xdg_id,
                ) is Some && (#[trigger] old(self).entries@[j]).id == spec_xdg_parent(
                    old(self).xdg_links@,
                    xdg_id,
                ).unwrap() ==> final(self).entries@[j] == (OutputEntry {
                    info: spec_xdg_description_applied(old(self).entries@[j].info, description),
                    ..old(self).entries@[j]
                }),
    {
        let parent = self.output_of_xdg(xdg_id);
        if let Some(id) = parent {
            let maybe = self.index_of(id);
            if let Some(j) = maybe {
                self.entries[j].info.description = Some(description);
                proof {
                    assert forall|k: int|
                        0 <= k < old(self).entries@.len() && (#[trigger] old(
                            self,
                        ).entries@[k]).id == id implies final(self).entries@[k] == (OutputEntry {
                            info: spec_xdg_description_applied(old(self).entries@[k].info, description),
                            ..old(self).entries@[k]
                        }) by {
                        if k != j as int {
                            assert(old(self).entries@[k].id == old(self).entries@[j as int].id);
                            assert(false);
                        }
                    }
                }
            }
        }
    }

    /// Applies an xdg-output done event: marks the logical geometry known
    /// and re-derives the effective scale. An xdg-output id with no known parent output changes nothing.
    pub fn apply_xdg_done_event(&mut self, xdg_id: u32)
        requires
            old(self).wf(),
        ensures
            final(self).wf(),
            final(self).xdg_links == old(self).xdg_links,
            final(self).entries@.len() == old(self).entries@.len(),
            forall|j: int|
                0 <= j < old(self).entries@.len() && (spec_xdg_parent(
                    old(self).xdg_links@,
                    xdg_id,
                ) is None || (#[trigger] old(self).entries@[j]).id != spec_xdg_parent(
                    old(self).xdg_links@,
                    xdg_id,
                ).unwrap()) ==> final(self).entries@[j] == old(self).entries@[j],
            forall|j: int|
                0 <= j < old(self).entries@.len() && spec_xdg_parent(
                    old(self).xdg_links@,
                    xdg_id,
                ) is Some && (#[trigger] old(self).entries@[j]).id == spec_xdg_parent(
                    old(self).xdg_links@,
                    xdg_id,
                ).unwrap() ==> final(self).entries@[j] == (OutputEntry {
                    info: spec_xdg_done_applied(old(self).entries@[j].info),
                    ..old(self).entries@[j]
                }),
    {
        let parent = self.output_of_xdg(xdg_id);
        if let Some(id) = parent {
            let maybe = self.index_of(id);
            if let Some(j) = maybe {
                self.entries[j].info.logical_scale_known = true;
                self.entries[j].info.update_logical_scale();
                proof {
                    assert forall|k: int|
                        0 <= k < old(self).entries@.len() && (#[trigger] old(
                            self,
                        ).entries@[k]).id == id implies final(self).entries@[k] == (OutputEntry {
                            info: spec_xdg_done_applied(old(self).entries@[k].info),
                            ..old(self).entries@[k]
                        }) by {
                        if k != j as int {
                            assert(old(self).entries@[k].id == old(self).entries@[j as int].id);
                            assert(false);
                        }
                    }
                }
            }
        }
    }

    /// The position of the first output with this name. Fails with an
    /// output-not-found error naming the missing output.
    pub fn find_output_by_name(&self, name: &str) -> (r: Result<usize, crate::error::Error>)
        ensures
            match r {
                Ok(j) => {
                    &&& j < self.entries@.len()
                    &&& self.entries@[j as int].info.name@ == name@
                    &&& forall|k: int|
                        0 <= k < j ==> (#[trigger] self.entries@[k]).info.name@ != name@
                },
                Err(e) => {
                    &&& forall|k: int|
                        0 <= k < self.entries@.len() ==> (#[trigger] self.entries@[k]).info.name@
                            != name@
                    &&& e matches crate::error::Error::OutputNotFound(m) && m@ == name@
                },
            },
    {
        let owned = name.to_owned();
        let n = self.entries.len();
        let mut j: usize = 0;
        while j < n
            invariant
                owned@ == name@,
                n == self.entries@.len(),
                j <= n,
                forall|k: int| 0 <= k < j ==> (#[trigger] self.entries@[k]).info.name@ != name@,
            decreases n - j,
        {
            if self.entries[j].info.name.eq(&owned) {
                return Ok(j);
            }
            j += 1;
        }
        Err(crate::error::Error::OutputNotFound(owned))
    }

    /// Fills in logical geometry for every output that has none, using the
    /// guess rule; used after a refresh when no xdg-output manager is
    /// available.
    pub fn fill_missing_logical_geometry(&mut self)
        requires
            old(self).wf(),
        ensures
            final(self).wf(),
            final(self).xdg_links == old(self).xdg_links,
            final(self).entries@.len() == old(self).entries@.len(),
            forall|j: int|
                0 <= j < old(self).entries@.len() ==> final(self).entries@[j] == (OutputEntry {
                    info: (if (#[trigger] old(self).entries@[j]).info.logical_scale_known {
                        old(self).entries@[j].info
                    } else {
                        old(self).entries@[j].info.spec_with_guessed_geometry()
                    }),
                    ..old(self).entries@[j]
                }),
    {
        let n = self.entries.len();
        let mut j: usize = 0;
        while j < n
            invariant
                old(self).wf(),
                n == old(self).entries@.len(),
                self.entries@.len() == n,
                self.xdg_links == old(self).xdg_links,
                self.wf(),
                j <= n,
                forall|k: int|
                    0 <= k < j ==> self.entries@[k] == (OutputEntry {
                        info: (if (#[trigger] old(self).entries@[k]).info.logical_scale_known {
                            old(self).entries@[k].info
                        } else {
                            old(self).entries@[k].info.spec_with_guessed_geometry()
                        }),
                        ..old(self).entries@[k]
                    }),
                forall|k: int| j <= k < n ==> self.entries@[k] == old(self).entries@[k],
            decreases n - j,
        {
            if !self.entries[j].info.logical_scale_known {
                self.entries[j].info.guess_logical_geometry();
            }
            j += 1;
        }
    }

    /// Checks the refresh invariant: every tracked output has a positive
    /// physical size and a positive logical size. The refresh sequence runs
    /// this after its round-trips (and after the guess rule filled missing
    /// logical geometry); an output that still lacks a size means the
    /// round-trips did not deliver complete geometry.
    pub fn validate_geometry(&self) -> (r: Result<(), crate::error::Error>)
        ensures
            match r {
                Ok(()) => forall|j: int|
                    0 <= j < self.entries@.len() ==> {
                        let o = (#[trigger] self.entries@[j]).info;
                        o.width > 0 && o.height > 0 && o.logical_width > 0 && o.logical_height
                            > 0
                    },
                Err(e) => {
                    &&& exists|j: int|
                        0 <= j < self.entries@.len() && {
                            let o = (#[trigger] self.entries@[j]).info;
                            o.width <= 0 || o.height <= 0 || o.logical_width <= 0
                                || o.logical_height <= 0
                        }
                    &&& e is WaylandConnection
                },
            },
    {
        let n = self.entries.len();
        let mut j: usize = 0;
        while j < n
            invariant
                n == self.entries@.len(),
                j <= n,
                forall|k: int|
                    0 <= k < j ==> {
                        let o = (#[trigger] self.entries@[k]).info;
                        o.width > 0 && o.height > 0 && o.logical_width > 0 && o.logical_height
                            > 0
                    },
            decreases n - j,
        {
            let info = &self.entries[j].info;
            if info.width <= 0 || info.height <= 0 || info.logical_width <= 0
                || info.logical_height <= 0 {
                return Err(
                    crate::error::Error::WaylandConnection(
                        "output geometry incomplete after refresh".to_owned(),
                    ),
                );
            }
            j += 1;
        }
        Ok(())
    }

    /// Whether the registry tracks no outputs.
    pub fn is_empty(&self) -> (r: bool)
        ensures
            r == (self.entries@.len() == 0),
    {
        self.entries.len() == 0
    }

    /// The caller-facing records of every tracked output, in discovery
    /// order: logical geometry when known, physical otherwise. Fails with a
    /// no-outputs error when the registry is empty.
    pub fn get_outputs(&self) -> (r: Result<Vec<Output>, crate::error::Error>)
        ensures
            match r {
                Ok(v) => {
                    &&& self.entries@.len() > 0
                    &&& v@.len() == self.entries@.len()
                    &&& forall|j: int|
                        0 <= j < v@.len() ==> v@[j] == spec_output_record(
                            (#[trigger] self.entries@[j]).info,
                        )
                },
                Err(e) => self.entries@.len() == 0 && e is NoOutputs,
            },
    {
        if self.entries.len() == 0 {
            return Err(crate::error::Error::NoOutputs);
        }
        let mut v: Vec<Output> = Vec::new();
        let n = self.entries.len();
        let mut j: usize = 0;
        while j < n
            invariant
                n == self.entries@.len(),
                j <= n,
                v@.len() == j,
                forall|k: int|
                    0 <= k < j ==> v@[k] == spec_output_record(
                        (#[trigger] self.entries@[k]).info,
                    ),
            decreases n - j,
        {
            let info = &self.entries[j].info;
            let geometry = if info.logical_scale_known {
                crate::geometry::Box::new(
                    info.logical_x,
                    info.logical_y,
                    info.logical_width,
                    info.logical_height,
                )
            } else {
                crate::geometry::Box::new(info.x, info.y, info.width, info.height)
            };
            let description = match &info.description {
                Some(d) => Some(d.clone()),
                None => None,
            };
            let record = Output { name: info.name.clone(), geometry, scale: info.scale, description };
            v.push(record);
            j += 1;
        }
        Ok(v)
    }
}

impl OutputInfo {
    /// This output's state after logical geometry is guessed from physical
    /// data: the logical position mirrors the physical one, the logical
    /// size is the physical size divided by the integer scale with the
    /// transform-dependent swap, the geometry counts as known, and the
    /// effective scale is re-derived.
    pub open spec fn spec_with_guessed_geometry(self) -> OutputInfo {
        let lw = self.width as int / self.scale as int;
        let lh = self.height as int / self.scale as int;
        let o1 = OutputInfo {
            logical_x: self.x,
            logical_y: self.y,
            logical_width: spec_transformed_width(lw, lh, self.transform) as i32,
            logical_height: spec_transformed_height(lw, lh, self.transform) as i32,
            logical_scale_known: true,
            ..self
        };
        o1.spec_with_updated_scale()
    }

    /// Guesses logical geometry from physical geometry; used when the
    /// xdg-output extension is not available.
    pub fn guess_logical_geometry(&mut self)
        requires
            old(self).wf(),
        ensures
            *final(self) == old(self).spec_with_guessed_geometry(),
            final(self).wf(),
    {
        self.logical_x = self.x;
        self.logical_y = self.y;
        let mut lw = self.width / self.scale;
        let mut lh = self.height / self.scale;
        apply_output_transform(self.transform, &mut lw, &mut lh);
        self.logical_width = lw;
        self.logical_height = lh;
        self.logical_scale_known = true;
        self.update_logical_scale();
    }
}

/// The caller-facing record of one output: logical geometry when known,
/// physical otherwise.
pub open spec fn spec_output_record(o: OutputInfo) -> Output {
    Output {
        name: o.name,
        geometry: if o.logical_scale_known {
            crate::geometry::Box {
                x: o.logical_x,
                y: o.logical_y,
                width: o.logical_width,
                height: o.logical_height,
            }
        } else {
            crate::geometry::Box { x: o.x, y: o.y, width: o.width, height: o.height }
        },
        scale: o.scale,
        description: o.description,
    }
}

/// An output record after an xdg-output logical-position event.
pub open spec fn spec_xdg_position_applied(o: OutputInfo, x: i32, y: i32) -> OutputInfo {
    (OutputInfo { logical_x: x, logical_y: y, logical_scale_known: true, ..o
    }).spec_with_updated_scale()
}

/// An output record after an xdg-output logical-size event.
pub open spec fn spec_xdg_size_applied(o: OutputInfo, width: i32, height: i32) -> OutputInfo {
    (OutputInfo {
        logical_width: width,
        logical_height: height,
        logical_scale_known: true,
        ..o
    }).spec_with_updated_scale()
}

/// An output record after an xdg-output name event: the name is replaced
/// only while it is still empty or the placeholder derived from the numeric
/// global name.
pub open spec fn spec_xdg_name_applied(o: OutputInfo, name: String) -> OutputInfo {
    if o.name@.len() == 0 || (o.name@.len() >= 7 && o.name@.subrange(0, 7) == "output-"@) {
        OutputInfo { name, ..o }
    } else {
        o
    }
}

/// An output record after an xdg-output description event.
pub open spec fn spec_xdg_description_applied(o: OutputInfo, description: String) -> OutputInfo {
    OutputInfo { description: Some(description), ..o }
}

/// An output record after an xdg-output done event: the logical geometry
/// counts as known and the effective scale is re-derived.
pub open spec fn spec_xdg_done_applied(o: OutputInfo) -> OutputInfo {
    (OutputInfo { logical_scale_known: true, ..o }).spec_with_updated_scale()
}

} // verus!
