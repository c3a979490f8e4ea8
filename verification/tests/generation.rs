use text_to_cypher::generation::{
    check_schemas, pick_schema, question_prompt, DatasetLog, GenerationError,
};
use text_to_cypher::models::{DatasetEntry, Response};

#[test]
fn pick_schema_draws_a_member() {
    let schemas = vec!["A".to_string(), "B".to_string(), "C".to_string()];
    for _ in 0..50 {
        let s = pick_schema(&schemas).unwrap();
        assert!(schemas.contains(&s));
    }
}

#[test]
fn pick_schema_single_and_empty() {
    assert_eq!(pick_schema(&vec!["only".to_string()]), Some("only".to_string()));
    assert_eq!(pick_schema(&vec![]), None);
}

#[test]
fn empty_schema_set_is_refused() {
    assert_eq!(check_schemas(&vec![]), Err(GenerationError::NoSchema));
    assert_eq!(check_schemas(&vec!["s".to_string()]), Ok(()));
    assert_eq!(GenerationError::NoSchema.message(), "No given schema");
}

#[test]
fn question_prompt_layout() {
    assert_eq!(
        question_prompt("(:A)-[:R]->(:B)", "MATCH p=(a)-[r]->(b) RETURN p"),
        "Schema:\n(:A)-[:R]->(:B)\n\nCypher:\nMATCH p=(a)-[r]->(b) RETURN p"
    );
}

#[test]
fn dataset_log_keeps_order() {
    let mut log = DatasetLog::new();
    assert!(log.entries().is_empty());
    log.record("s1".to_string(), "c1".to_string(), "q1".to_string());
    log.record("s2".to_string(), "c2".to_string(), "q2".to_string());
    assert_eq!(
        log.entries(),
        &vec![
            Response { schema: "s1".to_string(), cypher: "c1".to_string(), question: "q1".to_string() },
            Response { schema: "s2".to_string(), cypher: "c2".to_string(), question: "q2".to_string() },
        ]
    );
}

#[test]
fn dataset_entry_fields() {
    let e = DatasetEntry { schema: "s".to_string(), cypher: "c".to_string(), question: "q".to_string() };
    let f = e.clone();
    assert_eq!(e, f);
    assert_eq!(f.question, "q");
}
