use paimon_route::write_prepare::{PaimonWritePrepare, WritePrepareStep};

fn node(cast_needed: bool) -> PaimonWritePrepare<u32, &'static str, &'static str, Vec<&'static str>, usize> {
    PaimonWritePrepare {
        meta: 7,
        input: "scan",
        table_info: "t",
        insert_schema: vec!["id", "name"],
        select_schema: vec!["a", "b"],
        select_column_bindings: vec![0, 1],
        cast_needed,
    }
}

#[test]
fn derive_replaces_input_only() {
    let derived = node(true).derive(vec!["filter"]);
    assert_eq!(derived.input, "filter");
    assert_eq!(derived.meta, 7);
    assert_eq!(derived.table_info, "t");
    assert_eq!(derived.insert_schema, vec!["id", "name"]);
    assert_eq!(derived.select_schema, vec!["a", "b"]);
    assert_eq!(derived.select_column_bindings, vec![0, 1]);
    assert!(derived.cast_needed);
}

#[test]
fn cast_step_only_when_needed() {
    assert_eq!(
        node(true).pipeline_steps(),
        vec![
            WritePrepareStep::BuildInput,
            WritePrepareStep::ProjectColumns,
            WritePrepareStep::CastSchema,
            WritePrepareStep::FillAndReorderColumns,
        ]
    );
    assert_eq!(
        node(false).pipeline_steps(),
        vec![
            WritePrepareStep::BuildInput,
            WritePrepareStep::ProjectColumns,
            WritePrepareStep::FillAndReorderColumns,
        ]
    );
}
