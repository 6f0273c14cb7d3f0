//! Capturing sound: which device, and in which form its samples come.
use crate::text::{contains_text, law_contains_text, str_contains};
use vstd::prelude::*;

verus! {

/// The format in which a device captures.
#[derive(Debug, Clone, Copy, PartialEq, Eq, Structural)]
pub struct CaptureFormat {
    pub sample_rate: u32,
    pub channels: u16,
}

/// The form of a device's samples.
#[derive(Debug, Clone, Copy, PartialEq, Eq, Structural)]
pub enum SampleKind {
    F32,
    I16,
    Other,
}

/// What is done to captured samples.
#[derive(Debug, Clone, Copy, PartialEq, Eq, Structural)]
pub enum CapturePath {
    /// They are floats already.
    AsIs,
    /// They are 16-bit integers, to be scaled to floats.
    FromS16,
}

/// What to do to the samples of a device: nothing can be done with those that are neither floats
/// nor 16-bit integers.
pub fn capture_path(kind: SampleKind) -> (path: Option<CapturePath>)
    ensures
        path == (match kind {
            SampleKind::F32 => Some(CapturePath::AsIs),
            SampleKind::I16 => Some(CapturePath::FromS16),
            SampleKind::Other => None,
        }),
{
    match kind {
        SampleKind::F32 => Some(CapturePath::AsIs),
        SampleKind::I16 => Some(CapturePath::FromS16),
        SampleKind::Other => None,
    }
}

/// Whether a device goes by a name that has `wanted` in it; one whose name is not known does not.
pub open spec fn goes_by(name: Option<String>, wanted: Seq<char>) -> bool {
    name matches Some(text) && contains_text(text@, wanted)
}

/// The first of the devices, given by their names, that has `wanted` in its name.
pub fn find_device(names: &Vec<Option<String>>, wanted: &str) -> (found: Option<usize>)
    ensures
        match found {
            Some(i) => {
                &&& i < names@.len()
                &&& goes_by(names@[i as int], wanted@)
                &&& forall|k: int| 0 <= k < i ==> !goes_by(#[trigger] names@[k], wanted@)
            },
            None => forall|k: int| 0 <= k < names@.len() ==> !goes_by(#[trigger] names@[k], wanted@),
        },
{
    let mut i: usize = 0;
    while i < names.len()
        invariant
            i <= names@.len(),
            forall|k: int| 0 <= k < i ==> !goes_by(#[trigger] names@[k], wanted@),
        decreases names.len() - i,
    {
        match &names[i] {
            Some(name) => {
                if str_contains(name.as_str(), wanted) {
                    return Some(i);
                }
            },
            None => {},
        }
        i = i + 1;
    }
    None
}

/// A device is found by any part of its name, wherever that stands in it, and by nothing else; one
/// whose name is not known is not found.
pub proof fn law_devices_go_by_parts_of_their_names(
    name: Option<String>,
    before: Seq<char>,
    wanted: Seq<char>,
    behind: Seq<char>,
)
    ensures
        name is None ==> !goes_by(name, wanted),
        name matches Some(text) ==> (text@ == before + wanted + behind ==> goes_by(name, wanted)),
        goes_by(name, wanted) ==> (name matches Some(text) && exists|a: Seq<char>, b: Seq<char>|
            text@ == #[trigger] (a + wanted + b)),
{
    let s = match name {
        Some(text) => text@,
        None => Seq::empty(),
    };
    law_contains_text(s, before, wanted, behind);
}

} // verus!
