//! Where an event comes from.

use vstd::prelude::*;

verus! {

/// The origin of an event, in the parts of a URI.
#[derive(Debug, PartialEq, Eq)]
pub struct EventOriginUri {
    pub scheme: String,
    pub host: String,
    pub port: Option<u16>,
    pub path: Vec<String>,
}

/// An origin as plain data.
pub struct OriginView {
    pub scheme: Seq<char>,
    pub host: Seq<char>,
    pub port: Option<u16>,
    pub path: Seq<Seq<char>>,
}

/// The texts that `path` holds.
pub open spec fn path_view(path: Seq<String>) -> Seq<Seq<char>> {
    Seq::new(path.len(), |i: int| path[i]@)
}

impl View for EventOriginUri {
    type V = OriginView;

    open spec fn view(&self) -> OriginView {
        OriginView {
            scheme: self.scheme@,
            host: self.host@,
            port: self.port,
            path: path_view(self.path@),
        }
    }
}

impl OriginView {
    /// The origin of what a source of the given scheme emits on the given
    /// host: no port and no path.
    pub open spec fn of(scheme: Seq<char>, host: Seq<char>) -> OriginView {
        OriginView { scheme, host, port: None, path: Seq::empty() }
    }
}

impl EventOriginUri {
    /// The origin of what a source of the given scheme emits on the given
    /// host.
    pub fn new(scheme: String, host: String) -> (uri: EventOriginUri)
        ensures
            uri@ == OriginView::of(scheme@, host@),
    {
        let uri = EventOriginUri { scheme, host, port: None, path: Vec::new() };
        assert(uri@.path =~= Seq::<Seq<char>>::empty());
        uri
    }
}

impl Clone for EventOriginUri {
    fn clone(&self) -> (uri: EventOriginUri)
        ensures
            uri@ == self@,
    {
        let mut path: Vec<String> = Vec::new();
        let mut i: usize = 0;
        while i < self.path.len()
            invariant
                i <= self.path.len(),
                path@.len() == i,
                forall|k: int| 0 <= k < i ==> (#[trigger] path@[k])@ == self.path@[k]@,
            decreases self.path.len() - i,
        {
            path.push(self.path[i].clone());
            i += 1;
        }
        let uri = EventOriginUri {
            scheme: self.scheme.clone(),
            host: self.host.clone(),
            port: self.port,
            path,
        };
        assert(uri@.path =~= self@.path);
        uri
    }
}

} // verus!
