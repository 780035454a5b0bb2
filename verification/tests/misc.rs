use zawgl::graph_engine::model::{ProxyNodeId, ProxyRelationshipId};
use zawgl::matcher::vf2::base_state::BaseState;
use zawgl::matcher::vf2::VecIterator;
use zawgl::model::init::{DatabaseInitContext, InitContext};
use zawgl::query_model::model::{EvalItem, EvalScopeClause, EvalScopeExpression, FunctionCall};
use zawgl::query_model::str_eq;
use zawgl::query_model::token::{Token, TokenType};
use zawgl::repository::graph_repository::{
    edge_data_from_record, link_relationship, new_relationship_record, vertex_data_from_record, DbEdgeData, DbVertexData,
};
use zawgl::repository::store::records::{NodeRecord, RelationshipRecord};
use zawgl::test_utils::get_tmp_dir_path;
use zawgl::tx_handler::handler::{session_expired, TxSessionState, TxStatus};
use zawgl::tx_handler::tx_context::TxContext;
use zawgl::tx_handler::DatabaseError;

#[test]
fn test_base_state_queries() {
    let mut s: BaseState<u64, u64> = BaseState::new();
    assert!(!s.term_in());
    s.term_in_count = 2;
    s.term_out_count = 1;
    assert!(s.term_in());
    assert!(s.term_out());
    assert!(!s.term_both());
    s.in_map.insert(1, 3);
    s.out_map.insert(1, 4);
    s.out_map.insert(2, 1);
    assert!(s.term_in_vertex(&1));
    assert!(s.term_both_vertex(&1));
    assert!(!s.term_both_vertex(&2));
    assert!(s.term_out_vertex(&2));
    assert_eq!(s.in_depth(&1), 3);
    assert_eq!(s.out_depth(&1), 4);
    assert_eq!(s.in_depth(&9), 0);
    s.core_map.insert(1, 10);
    assert!(s.in_core(&1));
    assert!(!s.term_in_vertex(&1));
    s.multi_core_map.insert(2, vec![5, 6]);
    assert!(s.in_multi_core(&2));
    assert!(!s.multi_term_out_vertex(&2));
    assert!(s.multi_term_in_vertex(&1));
    assert!(s.multi_term_both_vertex(&1));
    assert_eq!(s.multi_core_last(&2), Some(6));
    assert_eq!(s.count(), 0);
    assert_eq!(s.term_set(), (2, 1, 0));
    assert_eq!(s.get_map().len(), 1);
    assert_eq!(s.get_multi_core_map().len(), 1);
}

#[test]
fn test_vec_iterator() {
    let mut it = VecIterator::new(vec![1, 2, 3]);
    assert!(!it.end());
    assert_eq!(*it.value(), 1);
    it.inc();
    it.inc();
    assert_eq!(it.index(), 2);
    it.inc();
    assert!(it.end());
    it.set_index(1);
    assert!(!it.end());
    assert_eq!(*it.value(), 2);
    it.set_index(5);
    assert!(it.end());
    it.reset();
    assert_eq!(it.index(), 0);
    assert!(VecIterator::<u8>::new(vec![]).end());
}

#[test]
fn test_proxy_ids() {
    let a = ProxyNodeId::new(1, 5);
    let b = ProxyNodeId::new_db(5);
    assert_eq!(a, b);
    assert_eq!(a.get_index(), Some(1));
    assert_eq!(b.get_index(), None);
    assert_eq!(b.get_store_id(), 5);
    assert_ne!(a, ProxyNodeId::new_db(6));
    let r = ProxyRelationshipId::new(2, 9);
    assert_eq!(r.get_index(), Some(2));
    assert_eq!(r.get_store_id(), 9);
    assert_ne!(r, ProxyRelationshipId::new_db(9));
}

#[test]
fn test_links_from_records() {
    let v = vertex_data_from_record(&NodeRecord { first_outbound_edge: 3, first_inbound_edge: 0, next_prop_id: 1, node_type: 0 });
    assert_eq!(v.first_outbound_edge, Some(3));
    assert_eq!(v.first_inbound_edge, None);
    let e = edge_data_from_record(&RelationshipRecord::new(1, 2));
    assert_eq!((e.source, e.target), (1, 2));
    assert_eq!(e.next_outbound_edge, None);
    let d = DbVertexData::new();
    assert!(d.first_inbound_edge.is_none());
    let n = DbEdgeData::new(4, 5);
    assert_eq!(n.target, 5);
}

#[test]
fn test_return_clause_flags() {
    let star = EvalScopeExpression::Item(EvalItem::new_named_item("*"));
    let prop = EvalScopeExpression::Item(EvalItem::new_property("n", "age"));
    let count = EvalScopeExpression::FunctionCall(FunctionCall::new("count"));
    let other = EvalScopeExpression::FunctionCall(FunctionCall::new("id"));
    assert!(EvalScopeClause::new_expression(vec![prop.clone(), star]).has_wildcard());
    assert!(!EvalScopeClause::new_expression(vec![prop.clone()]).has_wildcard());
    assert!(EvalScopeClause::new_expression(vec![other.clone(), count]).contains_aggregation_function());
    assert!(!EvalScopeClause::new_expression(vec![other, prop]).contains_aggregation_function());
    assert!(!EvalScopeClause::new().has_wildcard());
    assert!(str_eq("abc", "abc"));
    assert!(!str_eq("abc", "abd"));
    assert!(!str_eq("ab", "abc"));
}

#[test]
fn test_token() {
    let t = Token::new(TokenType::Identifier, 3, 7, "name");
    assert_eq!(t.size(), 4);
    assert_eq!(t.to_string(), "name");
    assert_eq!(t.token_type, TokenType::Identifier);
}

#[test]
fn test_session_status() {
    let mut s = TxSessionState::new();
    assert!(matches!(s.get_session_status(None), TxStatus::NoTx));
    let open = s.get_session_status(Some(TxContext { session_id: "a".to_string(), commit: false }));
    assert!(matches!(open, TxStatus::OpenNewTx(_)));
    assert!(matches!(s.get_session_status(Some(TxContext { session_id: "a".to_string(), commit: false })), TxStatus::ContinueCurrentTx(_)));
    assert!(matches!(s.get_session_status(Some(TxContext { session_id: "b".to_string(), commit: false })), TxStatus::WaitForCurrentTx));
    assert!(matches!(s.get_session_status(None), TxStatus::WaitForCurrentTx));
    assert!(matches!(s.get_session_status(Some(TxContext { session_id: "a".to_string(), commit: true })), TxStatus::CommitCurrentTx(_)));
    s.mark_locked();
    assert!(s.release_session());
    assert!(!s.release_session());
    assert!(matches!(s.get_session_status(None), TxStatus::NoTx));
    assert!(session_expired(11));
    assert!(!session_expired(10));
    assert_eq!(DatabaseError::TxError.to_string(), "tx error");
    assert_eq!(DatabaseError::EngineError.to_string(), "graph engine error");
}

#[test]
fn test_database_paths() {
    let ctx = DatabaseInitContext::with_dir("db", "/data/db");
    assert_eq!(ctx.db_name, "db");
    let p = ctx.get_nodes_store_path().unwrap();
    assert!(p.ends_with("nodes.db"));
    assert!(p.starts_with("/data/db"));
    assert!(ctx.get_relationships_store_path().unwrap().ends_with("relationships.db"));
    assert!(ctx.get_properties_store_path().unwrap().ends_with("properties.db"));
    assert!(ctx.get_dynamic_store_path().unwrap().ends_with("dynamic.db"));
    assert!(ctx.get_nodes_labels_index_path().unwrap().ends_with("nodes_labels_index.db"));
    assert!(ctx.get_relationships_types_index_path().unwrap().ends_with("relationships_types_index.db"));
    assert!(ctx.get_labels_store_path().unwrap().ends_with("labels.db"));
    assert!(ctx.get_meta_data_index_store_path().unwrap().ends_with("meta_data_index.db"));
    assert!(ctx.get_meta_data_values_store_path().unwrap().ends_with("meta_data_values.db"));
    let init = InitContext::new("/data", vec![ctx]);
    assert_eq!(init.root, "/data");
    assert_eq!(init.dbs_ctx.len(), 1);
}

#[test]
fn test_tmp_dir_path() {
    assert_eq!(get_tmp_dir_path("x", true), "/tmp/x");
    assert_eq!(get_tmp_dir_path("x", false), "C:\\Temp\\x");
}

#[test]
fn test_relationship_heads_both_lists() {
    let mut source = NodeRecord::new();
    source.first_outbound_edge = 5;
    let mut target = NodeRecord::new();
    target.first_inbound_edge = 9;
    let rr = new_relationship_record(1, 2, &source, &target);
    assert_eq!(rr.next_outbound_edge, 5);
    assert_eq!(rr.next_inbound_edge, 9);
    assert_eq!((rr.source, rr.target), (1, 2));
    link_relationship(1, 2, 33, &mut source, &mut target);
    assert_eq!(source.first_outbound_edge, 33);
    assert_eq!(target.first_inbound_edge, 33);
    let mut self_node = NodeRecord::new();
    let mut same = NodeRecord::new();
    link_relationship(4, 4, 7, &mut self_node, &mut same);
    assert_eq!(self_node.first_outbound_edge, 7);
    assert_eq!(self_node.first_inbound_edge, 0);
    assert_eq!(same.first_inbound_edge, 0);
}
