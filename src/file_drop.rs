use vstd::prelude::*;

verus! {

/// A file dropped onto the window, by path.
pub struct DroppedFile {
    pub name: String,
}

impl DroppedFile {
    /// The event for a dropped path: its text where the path is valid
    /// Unicode, the empty name where it is not.
    pub fn from_path_text(text: Option<&str>) -> (r: DroppedFile)
        ensures
            r.name@ == match text {
                Some(t) => t@,
                None => Seq::<char>::empty(),
            },
    {
        match text {
            Some(t) => DroppedFile { name: t.to_string() },
            None => DroppedFile { name: String::new() },
        }
    }
}

} // verus!
