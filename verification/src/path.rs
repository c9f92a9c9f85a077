//! Places of files below the store's base directory.

use vstd::prelude::*;
use vstd::string::*;

verus! {

/// A path relative to the store's base directory, one component after the other.
#[derive(Debug)]
pub struct DataPath {
    /// The components, outermost first.
    pub parts: Vec<String>,
}

impl View for DataPath {
    type V = Seq<Seq<char>>;

    open spec fn view(&self) -> Seq<Seq<char>> {
        self.parts@.map_values(|part: String| part@)
    }
}

impl DataPath {
    /// The base directory itself.
    pub fn new() -> (path: Self)
        ensures
            path@ == Seq::<Seq<char>>::empty(),
    {
        let path = DataPath { parts: Vec::new() };
        assert(path@ == Seq::<Seq<char>>::empty());
        path
    }

    /// The path with one more component.
    pub fn join(self, part: &str) -> (path: Self)
        ensures
            path@ == self@.push(part@),
    {
        let mut parts = self.parts;
        let ghost before = parts@;
        parts.push(String::from_str(part));
        let path = DataPath { parts };
        assert(path@ == before.map_values(|part: String| part@).push(part@));
        path
    }

    /// The same path once more.
    pub fn copy(&self) -> (path: Self)
        ensures
            path@ == self@,
    {
        let mut parts: Vec<String> = Vec::new();
        for index in 0..self.parts.len()
            invariant
                parts@.len() == index,
                forall|i: int| 0 <= i < index ==> (#[trigger] parts@[i])@ == self.parts@[i]@,
        {
            parts.push(self.parts[index].clone());
        }
        let path = DataPath { parts };
        assert(path@ == self@);
        path
    }
}

/// What is said of a path is said of its components, one by one.
pub proof fn law_a_path_is_its_components(path: DataPath)
    ensures
        path@.len() == path.parts@.len(),
        forall|i: int| 0 <= i < path.parts@.len() ==> #[trigger] path@[i] == path.parts@[i]@,
{
}

} // verus!
