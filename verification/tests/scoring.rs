use text_to_cypher::scoring::{
    evaluation_prompt, first_number_text, generation_prompt, matched_text, next_evaluation_stage,
    next_pretrain_stage, result_file_name, validation_prompt, CompiledPattern, EvaluationStage,
    PatternError, PretrainStage, NUMBER_PATTERN,
};

#[test]
fn first_number_is_found_in_reply() {
    assert_eq!(first_number_text("0.8"), Ok(Some("0.8".to_string())));
    assert_eq!(
        first_number_text("The score is 0.75, not 1.0"),
        Ok(Some("0.75".to_string()))
    );
    assert_eq!(first_number_text("score: -1.5e3!"), Ok(Some("-1.5e3".to_string())));
    assert_eq!(first_number_text("about .5"), Ok(Some(".5".to_string())));
    assert_eq!(first_number_text("no digits here"), Ok(None));
    assert_eq!(first_number_text("\u{e9}t\u{e9} 1"), Ok(Some("1".to_string())));
}

#[test]
fn compiled_pattern_finds_first_match() {
    let p = CompiledPattern::compile(NUMBER_PATTERN).unwrap();
    assert_eq!(p.find("a 12 b 34"), Some("12".to_string()));
    assert_eq!(p.find(""), None);
}

#[test]
fn invalid_pattern_is_refused() {
    assert!(matches!(CompiledPattern::compile("("), Err(PatternError::Invalid)));
    assert!(CompiledPattern::compile("a+").is_ok());
}

#[test]
fn matched_text_cuts_by_bytes() {
    assert_eq!(matched_text("hello world", 6, 11), "world");
    assert_eq!(matched_text("\u{e9}a", 0, 2), "\u{e9}");
    assert_eq!(matched_text("abc", 1, 1), "");
}

#[test]
fn prompts_are_laid_out_exactly() {
    assert_eq!(generation_prompt("S", "Q?"), "S\n\nQuestion:\nQ?");
    assert_eq!(
        validation_prompt("S", "MATCH (a)", "MATCH (b)"),
        "Schema: S\nGround Truth: MATCH (a)\nGenerated: MATCH (b)\nScore from 0 to 1:"
    );
    assert_eq!(
        evaluation_prompt("S", "MATCH (a)", "Who?"),
        "Graph Schema: S\nCypher Query: MATCH (a)\nNL QueryWho?\nScore from 0 to 1:"
    );
}

#[test]
fn result_file_names_are_zero_padded() {
    assert_eq!(result_file_name("dataset", 0), "dataset-00000000.json");
    assert_eq!(result_file_name("dataset", 42), "dataset-00000042.json");
    assert_eq!(result_file_name("d", 12345678), "d-12345678.json");
    assert_eq!(result_file_name("d", 123456789), "d-123456789.json");
    assert_eq!(result_file_name("", 7), "-00000007.json");
}

#[test]
fn result_file_names_match_format() {
    for k in [0usize, 1, 9, 10, 99, 100, 65535, 99999999, 100000000, usize::MAX] {
        assert_eq!(result_file_name("x", k), format!("x-{k:08}.json"));
    }
}

#[test]
fn distinct_entries_get_distinct_files() {
    let a = result_file_name("set", 1);
    let b = result_file_name("set", 10);
    assert_ne!(a, b);
}

#[test]
fn pretrain_stages_advance_and_restart() {
    assert_eq!(next_pretrain_stage(PretrainStage::Generate, true), PretrainStage::Validate);
    assert_eq!(next_pretrain_stage(PretrainStage::Validate, true), PretrainStage::Save);
    assert_eq!(next_pretrain_stage(PretrainStage::Save, true), PretrainStage::Done);
    assert_eq!(next_pretrain_stage(PretrainStage::Save, false), PretrainStage::Generate);
    assert_eq!(next_pretrain_stage(PretrainStage::Validate, false), PretrainStage::Generate);
    assert_eq!(next_pretrain_stage(PretrainStage::Done, false), PretrainStage::Done);
}

#[test]
fn evaluation_stages_advance_and_retry() {
    assert_eq!(next_evaluation_stage(EvaluationStage::Validate, true), EvaluationStage::Save);
    assert_eq!(next_evaluation_stage(EvaluationStage::Save, true), EvaluationStage::Done);
    assert_eq!(next_evaluation_stage(EvaluationStage::Save, false), EvaluationStage::Validate);
    assert_eq!(next_evaluation_stage(EvaluationStage::Validate, false), EvaluationStage::Validate);
    assert_eq!(next_evaluation_stage(EvaluationStage::Done, true), EvaluationStage::Done);
}
