use vstd::prelude::*;
use crate::geometry::Box;
use crate::MAX_PIXELS;

verus! {

/// One captured bitmap in tightly packed 8-bit RGBA with a row stride of
/// `4 * width` bytes.
#[derive(Debug, Clone, PartialEq, Eq)]
pub struct CaptureResult {
    pub data: Vec<u8>,
    pub width: u32,
    pub height: u32,
}

impl CaptureResult {
    /// The byte buffer holds exactly its packed size and the pixel count is
    /// within the global allocation bound.
    pub open spec fn wf(&self) -> bool {
        &&& self.data@.len() == 4 * self.width * self.height
        &&& self.width * self.height <= MAX_PIXELS
    }

    pub fn new(data: Vec<u8>, width: u32, height: u32) -> (r: Self)
        ensures
            r.data == data,
            r.width == width,
            r.height == height,
    {
        Self { data, width, height }
    }
}

/// Per-output capture request: which output, an optional sub-region in that
/// output's physical coordinates, and whether the cursor is overlaid.
#[derive(Debug, Clone, PartialEq, Eq)]
pub struct CaptureParameters {
    pub output_name: String,
    pub region: Option<Box>,
    pub overlay_cursor: bool,
}

impl CaptureParameters {
    pub fn new(output_name: String) -> (r: Self)
        ensures
            r.output_name == output_name,
            r.region is None,
            r.overlay_cursor == false,
    {
        Self { output_name, region: None, overlay_cursor: false }
    }

    pub fn with_region(self, region: Box) -> (r: Self)
        ensures
            r.output_name == self.output_name,
            r.region == Some(region),
            r.overlay_cursor == self.overlay_cursor,
    {
        Self { region: Some(region), ..self }
    }

    pub fn with_overlay_cursor(self, overlay_cursor: bool) -> (r: Self)
        ensures
            r.output_name == self.output_name,
            r.region == self.region,
            r.overlay_cursor == overlay_cursor,
    {
        Self { overlay_cursor, ..self }
    }

    pub fn output_name(&self) -> (r: &String)
        ensures
            r == self.output_name,
    {
        &self.output_name
    }

    pub fn region_ref(&self) -> (r: Option<&Box>)
        ensures
            match r {
                Some(b) => self.region == Some(*b),
                None => self.region is None,
            },
    {
        self.region.as_ref()
    }

    pub fn overlay_cursor_enabled(&self) -> (r: bool)
        ensures
            r == self.overlay_cursor,
    {
        self.overlay_cursor
    }
}

/// A map from output name to its capture; names are unique and carry no
/// ordering.
#[derive(Debug, Clone, PartialEq, Eq)]
pub struct MultiOutputCaptureResult {
    pub entries: Vec<(String, CaptureResult)>,
}

/// The capture stored under `name` in `entries`, if any.
pub open spec fn spec_lookup(entries: Seq<(String, CaptureResult)>, name: Seq<char>) -> Option<
    CaptureResult,
>
    decreases entries.len(),
{
    if entries.len() == 0 {
        None
    } else if entries[0].0@ == name {
        Some(entries[0].1)
    } else {
        spec_lookup(entries.skip(1), name)
    }
}

impl MultiOutputCaptureResult {
    /// The entry names are pairwise distinct.
    pub open spec fn wf(&self) -> bool {
        forall|i: int, j: int|
            0 <= i < j < self.entries@.len() ==> self.entries@[i].0@ != self.entries@[j].0@
    }

    pub open spec fn spec_entries(&self) -> Seq<(String, CaptureResult)> {
        self.entries@
    }

    /// The capture stored under `name`, if any.
    pub open spec fn spec_get(&self, name: Seq<char>) -> Option<CaptureResult> {
        spec_lookup(self.entries@, name)
    }

    pub fn new() -> (r: Self)
        ensures
            r.wf(),
            r.spec_entries() == Seq::<(String, CaptureResult)>::empty(),
    {
        Self { entries: Vec::new() }
    }

    /// Stores a capture under a name that is not present yet.
    pub fn insert(&mut self, name: String, capture: CaptureResult)
        requires
            old(self).wf(),
            old(self).spec_get(name@) is None,
        ensures
            final(self).wf(),
            final(self).spec_entries() == old(self).spec_entries().push((name, capture)),
    {
        proof {
            lemma_lookup_none_means_absent(self.entries@, name@);
        }
        self.entries.push((name, capture));
        proof {
            let entries = self.entries@;
            assert forall|i: int, j: int|
                0 <= i < j < entries.len() implies entries[i].0@ != entries[j].0@ by {
                if j < entries.len() - 1 {
                    assert(old(self).wf());
                } else {
                    assert(entries[j].0@ == name@);
                }
            }
        }
    }

    pub fn len(&self) -> (r: usize)
        ensures
            r == self.spec_entries().len(),
    {
        self.entries.len()
    }

    pub fn is_empty(&self) -> (r: bool)
        ensures
            r == (self.spec_entries().len() == 0),
    {
        self.entries.len() == 0
    }

    /// The capture stored under `name`, if any.
    pub fn get(&self, name: &str) -> (r: Option<&CaptureResult>)
        ensures
            match r {
                Some(c) => self.spec_get(name@) == Some(*c),
                None => self.spec_get(name@) is None,
            },
    {
        let owned = name.to_owned();
        proof {
            assert(self.entries@.skip(0) =~= self.entries@);
        }
        let mut idx: usize = 0;
        while idx < self.entries.len()
            invariant
                owned@ == name@,
                idx <= self.entries@.len(),
                spec_lookup(self.entries@, name@) == spec_lookup(
                    self.entries@.skip(idx as int),
                    name@,
                ),
            decreases self.entries@.len() - idx,
        {
            proof {
                assert(self.entries@.skip(idx as int)[0] == self.entries@[idx as int]);
            }
            if self.entries[idx].0.eq(&owned) {
                return Some(&self.entries[idx].1);
            }
            proof {
                assert(self.entries@.skip(idx as int).skip(1) =~= self.entries@.skip(
                    idx as int + 1,
                ));
            }
            idx += 1;
        }
        proof {
            assert(self.entries@.skip(idx as int) =~= Seq::<(String, CaptureResult)>::empty());
        }
        None
    }

    /// Hands the entries out for consumption; the order carries no meaning.
    pub fn into_outputs(self) -> (r: Vec<(String, CaptureResult)>)
        ensures
            r@ == self.spec_entries(),
    {
        self.entries
    }
}

/// A name absent from the lookup is distinct from every entry's name.
proof fn lemma_lookup_none_means_absent(entries: Seq<(String, CaptureResult)>, name: Seq<char>)
    requires
        spec_lookup(entries, name) is None,
    ensures
        forall|i: int| 0 <= i < entries.len() ==> entries[i].0@ != name,
    decreases entries.len(),
{
    if entries.len() > 0 {
        lemma_lookup_none_means_absent(entries.skip(1), name);
        assert forall|i: int| 0 <= i < entries.len() implies entries[i].0@ != name by {
            if i > 0 {
                assert(entries.skip(1)[i - 1] == entries[i]);
            }
        }
    }
}

/// One display record a caller sees: its name, its geometry in logical
/// pixels when known (physical otherwise), its integer scale, and its
/// description.
#[derive(Debug, Clone, PartialEq, Eq)]
pub struct Output {
    pub name: String,
    pub geometry: Box,
    pub scale: i32,
    pub description: Option<String>,
}

impl Output {
    pub fn name(&self) -> (r: &String)
        ensures
            r == self.name,
    {
        &self.name
    }

    pub fn geometry(&self) -> (r: &Box)
        ensures
            r == self.geometry,
    {
        &self.geometry
    }

    pub fn scale(&self) -> (r: i32)
        ensures
            r == self.scale,
    {
        self.scale
    }

    pub fn description(&self) -> (r: &Option<String>)
        ensures
            r == self.description,
    {
        &self.description
    }
}

} // verus!
