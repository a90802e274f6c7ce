//! A package as the parser sees it: its parts, each with a name and its
//! bytes. Unpacking the archive that holds them is left to the caller.

use crate::ooxml::types::PackagePart;
use crate::text::str_eq;
use vstd::prelude::*;
use vstd::utf8::{decode_utf8, valid_utf8};

verus! {

/// The text that `String::from_utf8_lossy` makes of `bytes`.
pub uninterp spec fn utf8_lossy(bytes: Seq<u8>) -> Seq<char>;

/// `String::from_utf8_lossy`: the bytes read as UTF-8, each stretch that is
/// not UTF-8 giving the replacement character. The contract names the
/// result, and claims of it only that bytes that are UTF-8 throughout give
/// the string they encode.
#[verifier::external_body]
fn lossy_text(bytes: &Vec<u8>) -> (s: String)
    ensures
        s@ == utf8_lossy(bytes@),
        valid_utf8(bytes@) ==> s@ == decode_utf8(bytes@),
{
    String::from_utf8_lossy(bytes).into_owned()
}

impl PackagePart {
    /// The part's bytes read as text.
    pub fn text(&self) -> (s: String)
        ensures
            s@ == utf8_lossy(self.data@),
            valid_utf8(self.data@) ==> s@ == decode_utf8(self.data@),
    {
        lossy_text(&self.data)
    }
}

/// The parts of a package, in the order in which the archive lists them.
#[derive(Debug, Clone, PartialEq, Eq)]
pub struct OpcPackage {
    pub parts: Vec<PackagePart>,
}

/// Index of the first part from `from` on that is called `name`.
pub open spec fn part_index(parts: Seq<PackagePart>, name: Seq<char>, from: int) -> Option<int>
    decreases parts.len() - from,
{
    if from < 0 || from >= parts.len() {
        None
    } else if parts[from].name@ == name {
        Some(from)
    } else {
        part_index(parts, name, from + 1)
    }
}

impl OpcPackage {
    /// A package without parts.
    pub fn new() -> (r: Self)
        ensures
            r.parts@ == Seq::<PackagePart>::empty(),
    {
        OpcPackage { parts: Vec::new() }
    }

    /// Whether the package has a part called `name`.
    pub open spec fn has_part(&self, name: Seq<char>) -> bool {
        part_index(self.parts@, name, 0) is Some
    }

    /// The bytes of the first part called `name`.
    pub open spec fn part_data(&self, name: Seq<char>) -> Seq<u8>
        recommends
            self.has_part(name),
    {
        self.parts@[part_index(self.parts@, name, 0)->0].data@
    }

    /// The text of the first part called `name`.
    pub open spec fn part_text(&self, name: Seq<char>) -> Seq<char>
        recommends
            self.has_part(name),
    {
        utf8_lossy(self.part_data(name))
    }

    /// The first part called `name`, if there is one.
    pub fn get_part(&self, name: &str) -> (r: Option<&PackagePart>)
        ensures
            match r {
                Some(part) => part_index(self.parts@, name@, 0) is Some && *part
                    == self.parts@[part_index(self.parts@, name@, 0)->0],
                None => part_index(self.parts@, name@, 0) is None,
            },
    {
        let mut i: usize = 0;
        while i < self.parts.len()
            invariant
                i <= self.parts.len(),
                part_index(self.parts@, name@, 0) == part_index(self.parts@, name@, i as int),
            decreases self.parts.len() - i,
        {
            if str_eq(self.parts[i].name.as_str(), name) {
                return Some(&self.parts[i]);
            }
            i += 1;
        }
        None
    }
}

} // verus!
