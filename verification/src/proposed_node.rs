//! Structs for building proposed nodes.

use vstd::prelude::*;

verus! {

/// The mathematical content of a list of strings: one character sequence per
/// element, in order.
pub open spec fn strings_view(s: Seq<String>) -> Seq<Seq<char>> {
    s.map_values(|x: String| x@)
}

/// Copies a slice of strings into a freshly allocated vector.
pub fn clone_strings(items: &[String]) -> (copy: Vec<String>)
    ensures
        copy@ == items@,
{
    let mut copy: Vec<String> = Vec::new();
    let mut i: usize = 0;
    while i < items.len()
        invariant
            i <= items.len(),
            copy@ == items@.subrange(0, i as int),
        decreases items.len() - i,
    {
        copy.push(items[i].clone());
        i = i + 1;
    }
    copy
}

/// Error returned when a builder cannot produce its value.
#[derive(Debug)]
pub enum BuilderError {
    /// A required field was never set; carries the field's name.
    MissingField(String),
}

/// Abstract value of a [`ProposedNode`].
pub struct ProposedNodeView {
    pub node_id: Seq<char>,
    pub endpoints: Seq<Seq<char>>,
}

/// Native representation of a node in a proposed circuit.
#[derive(Clone, Debug, PartialEq, Eq)]
pub struct ProposedNode {
    node_id: String,
    endpoints: Vec<String>,
}

impl View for ProposedNode {
    type V = ProposedNodeView;

    closed spec fn view(&self) -> ProposedNodeView {
        ProposedNodeView { node_id: self.node_id@, endpoints: strings_view(self.endpoints@) }
    }
}

impl ProposedNode {
    /// Returns the ID of the proposed node.
    pub fn node_id(&self) -> (id: &str)
        ensures
            id@ == self@.node_id,
    {
        self.node_id.as_str()
    }

    /// Returns the list of endpoints that belong to the proposed node.
    pub fn endpoints(&self) -> (list: &[String])
        ensures
            strings_view(list@) == self@.endpoints,
    {
        self.endpoints.as_slice()
    }
}

/// Abstract value of a [`ProposedNodeBuilder`]: each field is either unset or
/// holds the value most recently given.
pub struct ProposedNodeBuilderView {
    pub node_id: Option<Seq<char>>,
    pub endpoints: Option<Seq<Seq<char>>>,
}

/// Builder for creating a [`ProposedNode`].
#[derive(Clone)]
pub struct ProposedNodeBuilder {
    node_id: Option<String>,
    endpoints: Option<Vec<String>>,
}

impl View for ProposedNodeBuilder {
    type V = ProposedNodeBuilderView;

    closed spec fn view(&self) -> ProposedNodeBuilderView {
        ProposedNodeBuilderView {
            node_id: match self.node_id {
                Some(id) => Some(id@),
                None => None,
            },
            endpoints: match self.endpoints {
                Some(list) => Some(strings_view(list@)),
                None => None,
            },
        }
    }
}

impl Default for ProposedNodeBuilder {
    fn default() -> (builder: Self)
        ensures
            builder@.node_id is None,
            builder@.endpoints is None,
    {
        ProposedNodeBuilder { node_id: None, endpoints: None }
    }
}

impl ProposedNodeBuilder {
    /// Creates a builder with no field set.
    pub fn new() -> (builder: Self)
        ensures
            builder@.node_id is None,
            builder@.endpoints is None,
    {
        ProposedNodeBuilder { node_id: None, endpoints: None }
    }

    /// Returns the unique node ID, if one was set.
    pub fn node_id(&self) -> (id: Option<String>)
        ensures
            id is Some <==> self@.node_id is Some,
            id matches Some(s) ==> self@.node_id == Some(s@),
    {
        match &self.node_id {
            Some(id) => Some(id.clone()),
            None => None,
        }
    }

    /// Returns the list of endpoints for the node, if one was set.
    pub fn endpoints(&self) -> (list: Option<Vec<String>>)
        ensures
            list is Some <==> self@.endpoints is Some,
            list matches Some(l) ==> self@.endpoints == Some(strings_view(l@)),
    {
        match &self.endpoints {
            Some(list) => Some(clone_strings(list.as_slice())),
            None => None,
        }
    }

    /// Sets the node ID, leaving the endpoints as they were.
    pub fn with_node_id(self, node_id: &str) -> (builder: ProposedNodeBuilder)
        ensures
            builder@.node_id == Some(node_id@),
            builder@.endpoints == self@.endpoints,
    {
        let mut builder = self;
        builder.node_id = Some(node_id.to_owned());
        builder
    }

    /// Sets the endpoints, leaving the node ID as it was.
    pub fn with_endpoints(self, endpoints: &[String]) -> (builder: ProposedNodeBuilder)
        ensures
            builder@.endpoints == Some(strings_view(endpoints@)),
            builder@.node_id == self@.node_id,
    {
        let mut builder = self;
        builder.endpoints = Some(clone_strings(endpoints));
        builder
    }

    /// Builds the [`ProposedNode`].
    ///
    /// Fails with the name of the first missing field when the node ID or the
    /// endpoints were never set; the node ID is looked at first.
    pub fn build(self) -> (built: Result<ProposedNode, BuilderError>)
        ensures
            match (self@.node_id, self@.endpoints) {
                (Some(id), Some(list)) => built matches Ok(node) && node@.node_id == id
                    && node@.endpoints == list,
                (None, _) => built matches Err(BuilderError::MissingField(field)) && field@
                    == "node_id"@,
                (Some(_), None) => built matches Err(BuilderError::MissingField(field))
                    && field@ == "endpoints"@,
            },
    {
        let node_id = match self.node_id {
            Some(id) => id,
            None => {
                return Err(BuilderError::MissingField("node_id".to_owned()));
            },
        };
        let endpoints = match self.endpoints {
            Some(list) => list,
            None => {
                return Err(BuilderError::MissingField("endpoints".to_owned()));
            },
        };
        Ok(ProposedNode { node_id, endpoints })
    }
}

} // verus!
