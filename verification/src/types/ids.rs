//! Identifiers of nodes and edges.

use vstd::prelude::*;

verus! {

/// Unique identifier for a node in the graph.
#[derive(Debug, Hash)]
pub struct NodeId(pub String);

impl View for NodeId {
    type V = Seq<char>;

    open spec fn view(&self) -> Seq<char> {
        self.0@
    }
}

impl NodeId {
    /// Create a new node identifier.
    pub fn new(id: &str) -> (r: NodeId)
        ensures
            r@ == id@,
    {
        NodeId(id.to_owned())
    }

    /// Create an identifier that takes ownership of `id`.
    pub fn from_string(id: String) -> (r: NodeId)
        ensures
            r@ == id@,
    {
        NodeId(id)
    }

    /// Return the underlying string slice.
    pub fn as_str(&self) -> (r: &str)
        ensures
            r@ == self@,
    {
        self.0.as_str()
    }

    /// The identifier as an owned string (what `Display` prints).
    pub fn to_string(&self) -> (r: String)
        ensures
            r@ == self@,
    {
        self.0.clone()
    }
}

impl<'a> From<&'a str> for NodeId {
    fn from(s: &'a str) -> (r: NodeId)
        ensures
            r@ == s@,
    {
        NodeId::new(s)
    }
}

impl<'a> vstd::std_specs::convert::FromSpecImpl<&'a str> for NodeId {
    /// The conversion is specified by the `ensures` of `from` (the
    /// identifier's characters are the string's), not by a spec function.
    open spec fn obeys_from_spec() -> bool {
        false
    }

    open spec fn from_spec(v: &'a str) -> NodeId {
        choose|r: NodeId| r@ == v@
    }
}

impl From<String> for NodeId {
    fn from(s: String) -> (r: NodeId)
        ensures
            r@ == s@,
    {
        NodeId::from_string(s)
    }
}

impl vstd::std_specs::convert::FromSpecImpl<String> for NodeId {
    /// The conversion is specified by the `ensures` of `from` (the
    /// identifier takes the string over), not by a spec function.
    open spec fn obeys_from_spec() -> bool {
        false
    }

    open spec fn from_spec(v: String) -> NodeId {
        choose|r: NodeId| r@ == v@
    }
}

impl Clone for NodeId {
    fn clone(&self) -> (r: Self)
        ensures
            r == *self,
    {
        NodeId(self.0.clone())
    }
}

impl PartialEq for NodeId {
    fn eq(&self, other: &Self) -> (r: bool) {
        self.0 == other.0
    }
}

impl vstd::std_specs::cmp::PartialEqSpecImpl for NodeId {
    open spec fn obeys_eq_spec() -> bool {
        true
    }

    open spec fn eq_spec(&self, other: &Self) -> bool {
        self@ == other@
    }
}

impl Eq for NodeId {
}


/// Unique identifier for an edge in the graph.
#[derive(Debug, Hash)]
pub struct EdgeId(pub String);

impl View for EdgeId {
    type V = Seq<char>;

    open spec fn view(&self) -> Seq<char> {
        self.0@
    }
}

impl EdgeId {
    /// Create a new edge identifier.
    pub fn new(id: &str) -> (r: EdgeId)
        ensures
            r@ == id@,
    {
        EdgeId(id.to_owned())
    }

    /// Create an identifier that takes ownership of `id`.
    pub fn from_string(id: String) -> (r: EdgeId)
        ensures
            r@ == id@,
    {
        EdgeId(id)
    }

    /// Return the underlying string slice.
    pub fn as_str(&self) -> (r: &str)
        ensures
            r@ == self@,
    {
        self.0.as_str()
    }

    /// The identifier as an owned string (what `Display` prints).
    pub fn to_string(&self) -> (r: String)
        ensures
            r@ == self@,
    {
        self.0.clone()
    }
}

impl<'a> From<&'a str> for EdgeId {
    fn from(s: &'a str) -> (r: EdgeId)
        ensures
            r@ == s@,
    {
        EdgeId::new(s)
    }
}

impl<'a> vstd::std_specs::convert::FromSpecImpl<&'a str> for EdgeId {
    /// The conversion is specified by the `ensures` of `from` (the
    /// identifier's characters are the string's), not by a spec function.
    open spec fn obeys_from_spec() -> bool {
        false
    }

    open spec fn from_spec(v: &'a str) -> EdgeId {
        choose|r: EdgeId| r@ == v@
    }
}

impl From<String> for EdgeId {
    fn from(s: String) -> (r: EdgeId)
        ensures
            r@ == s@,
    {
        EdgeId::from_string(s)
    }
}

impl vstd::std_specs::convert::FromSpecImpl<String> for EdgeId {
    /// The conversion is specified by the `ensures` of `from` (the
    /// identifier takes the string over), not by a spec function.
    open spec fn obeys_from_spec() -> bool {
        false
    }

    open spec fn from_spec(v: String) -> EdgeId {
        choose|r: EdgeId| r@ == v@
    }
}

impl Clone for EdgeId {
    fn clone(&self) -> (r: Self)
        ensures
            r == *self,
    {
        EdgeId(self.0.clone())
    }
}

impl PartialEq for EdgeId {
    fn eq(&self, other: &Self) -> (r: bool) {
        self.0 == other.0
    }
}

impl vstd::std_specs::cmp::PartialEqSpecImpl for EdgeId {
    open spec fn obeys_eq_spec() -> bool {
        true
    }

    open spec fn eq_spec(&self, other: &Self) -> bool {
        self@ == other@
    }
}

impl Eq for EdgeId {
}

} // verus!
