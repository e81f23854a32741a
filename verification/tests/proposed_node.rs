use gameroom_ledger::proposed_node::{clone_strings, BuilderError, ProposedNodeBuilder};

#[test]
fn builder_collects_both_fields() {
    let endpoints = vec!["tcp://127.0.0.1:8044".to_string(), "tcp://10.0.0.2:8044".to_string()];
    let node = ProposedNodeBuilder::new()
        .with_node_id("alpha-node-000")
        .with_endpoints(&endpoints)
        .build()
        .expect("both fields were set");
    assert_eq!(node.node_id(), "alpha-node-000");
    assert_eq!(node.endpoints(), &endpoints[..]);
}

#[test]
fn builder_reports_what_it_holds() {
    let builder = ProposedNodeBuilder::new();
    assert_eq!(builder.node_id(), None);
    assert_eq!(builder.endpoints(), None);
    let builder = builder.with_node_id("beta");
    assert_eq!(builder.node_id(), Some("beta".to_string()));
    assert_eq!(builder.endpoints(), None);
    let builder = builder.with_endpoints(&["tcp://h:1".to_string()]);
    assert_eq!(builder.node_id(), Some("beta".to_string()));
    assert_eq!(builder.endpoints(), Some(vec!["tcp://h:1".to_string()]));
}

#[test]
fn later_value_replaces_earlier() {
    let node = ProposedNodeBuilder::new()
        .with_node_id("first")
        .with_endpoints(&["tcp://a:1".to_string()])
        .with_node_id("second")
        .with_endpoints(&[])
        .build()
        .unwrap();
    assert_eq!(node.node_id(), "second");
    assert!(node.endpoints().is_empty());
}

#[test]
fn build_without_node_id_names_node_id() {
    let endpoints = vec!["tcp://127.0.0.1:8044".to_string()];
    for builder in [ProposedNodeBuilder::new(), ProposedNodeBuilder::new().with_endpoints(&endpoints)] {
        match builder.build() {
            Err(BuilderError::MissingField(field)) => assert_eq!(field, "node_id"),
            Ok(node) => panic!("built {:?} without a node id", node),
        }
    }
}

#[test]
fn build_without_endpoints_names_endpoints() {
    match ProposedNodeBuilder::new().with_node_id("gamma").build() {
        Err(BuilderError::MissingField(field)) => assert_eq!(field, "endpoints"),
        Ok(node) => panic!("built {:?} without endpoints", node),
    }
}

#[test]
fn default_builder_is_empty_and_clones_share_nothing() {
    let builder = ProposedNodeBuilder::default().with_node_id("delta");
    let copy = builder.clone().with_endpoints(&["tcp://d:4".to_string()]);
    assert_eq!(builder.endpoints(), None);
    let node = copy.build().unwrap();
    assert_eq!(node.clone(), node);
    assert_eq!(clone_strings(node.endpoints()), vec!["tcp://d:4".to_string()]);
}
