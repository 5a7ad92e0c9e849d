use vstd::prelude::*;

verus! {

/// The mathematical value of a route reference: the sequence of its
/// identifier segments, each a sequence of characters.
pub type PathView = Seq<Seq<char>>;

/// The views of a sequence of strings.
pub open spec fn strings_view(s: Seq<String>) -> Seq<Seq<char>> {
    s.map_values(|x: String| x@)
}

/// A qualified route reference: one or more identifier segments that were
/// joined by the scope separator in the source declaration.
#[derive(Debug)]
pub struct RoutePath {
    pub segments: Vec<String>,
}

impl View for RoutePath {
    type V = PathView;

    open spec fn view(&self) -> PathView {
        strings_view(self.segments@)
    }
}

/// The views of a sequence of route references.
pub open spec fn paths_view(s: Seq<RoutePath>) -> Seq<PathView> {
    s.map_values(|p: RoutePath| p@)
}

/// The operation identifier derived from a route reference: its segments
/// joined with a single underscore, in order, unchanged otherwise.
pub open spec fn spec_operation_id(segments: PathView) -> Seq<char>
    decreases segments.len(),
{
    if segments.len() == 0 {
        Seq::empty()
    } else if segments.len() == 1 {
        segments[0]
    } else {
        spec_operation_id(segments.drop_last()) + seq!['_'] + segments.last()
    }
}

impl Clone for RoutePath {
    /// Cloning keeps every segment.
    fn clone(&self) -> (r: Self)
        ensures
            r@ == self@,
    {
        let mut segments: Vec<String> = Vec::new();
        let n = self.segments.len();
        let mut i: usize = 0;
        while i < n
            invariant
                n == self.segments@.len(),
                i <= n,
                segments@.len() == i as int,
                forall|j: int| 0 <= j < i ==> segments@[j] == self.segments@[j],
            decreases n - i,
        {
            segments.push(self.segments[i].clone());
            i = i + 1;
        }
        proof {
            assert(segments@ =~= self.segments@);
        }
        RoutePath { segments }
    }
}

impl RoutePath {
    /// A route reference is well formed when it has at least one segment.
    pub open spec fn wf(&self) -> bool {
        self@.len() > 0
    }

    /// The base name of the reference: its final segment.
    pub fn last_segment(&self) -> (r: &String)
        requires
            self.wf(),
        ensures
            r@ == self@.last(),
    {
        &self.segments[self.segments.len() - 1]
    }

    /// Joins the segments with single underscores into the operation
    /// identifier, with no truncation and no case transformation.
    pub fn operation_id(&self) -> (r: String)
        requires
            self.wf(),
        ensures
            r@ == spec_operation_id(self@),
    {
        let mut out = String::new();
        let n = self.segments.len();
        let mut i: usize = 0;
        proof {
            assert(self@.take(0) =~= Seq::<Seq<char>>::empty());
        }
        while i < n
            invariant
                self.wf(),
                n == self.segments@.len(),
                i <= n,
                out@ == spec_operation_id(self@.take(i as int)),
            decreases n - i,
        {
            let ghost prefix = self@.take(i as int);
            if i > 0 {
                out.append("_");
                proof {
                    reveal_strlit("_");
                    assert("_"@ =~= seq!['_']);
                }
            }
            out.append(self.segments[i].as_str());
            proof {
                let extended = self@.take(i + 1 as int);
                assert(extended.drop_last() =~= prefix);
                assert(extended.last() == self@[i as int]);
                if i == 0 {
                    assert(out@ =~= extended[0]);
                }
            }
            i = i + 1;
        }
        proof {
            assert(self@.take(n as int) =~= self@);
        }
        out
    }

    /// The companion registration reference: the same qualified path with
    /// only the final segment replaced by the derived name. The prefix
    /// segments are kept byte for byte.
    pub fn companion_reference(&self, derived_last: String) -> (r: RoutePath)
        requires
            self.wf(),
        ensures
            r.wf(),
            r@.len() == self@.len(),
            forall|j: int| 0 <= j < self@.len() - 1 ==> r@[j] == self@[j],
            r@.last() == derived_last@,
    {
        let mut segments: Vec<String> = Vec::new();
        let n = self.segments.len();
        let mut i: usize = 0;
        while i < n - 1
            invariant
                self.wf(),
                n == self.segments@.len(),
                i <= n - 1,
                segments@.len() == i as int,
                forall|j: int| 0 <= j < i ==> segments@[j] == self.segments@[j],
            decreases n - 1 - i,
        {
            segments.push(self.segments[i].clone());
            i = i + 1;
        }
        segments.push(derived_last);
        RoutePath { segments }
    }
}

} // verus!
