//! The plan node that prepares rows for a Paimon write: it projects the
//! selected columns, casts them to the insert schema when needed, and fills
//! and reorders them to the table's columns.
use vstd::prelude::*;

verus! {

/// One step of the pipeline that a write-prepare node adds.
#[derive(Clone, Copy, Debug, PartialEq, Eq, Structural)]
pub enum WritePrepareStep {
    /// Build the input plan's pipeline.
    BuildInput,
    /// Project the selected columns of the input.
    ProjectColumns,
    /// Cast the selected schema to the insert schema.
    CastSchema,
    /// Fill missing columns and reorder them to the table's columns.
    FillAndReorderColumns,
}

/// The steps of a write-prepare pipeline; the cast comes in only when needed.
pub open spec fn write_prepare_steps(cast_needed: bool) -> Seq<WritePrepareStep> {
    if cast_needed {
        seq![
            WritePrepareStep::BuildInput,
            WritePrepareStep::ProjectColumns,
            WritePrepareStep::CastSchema,
            WritePrepareStep::FillAndReorderColumns,
        ]
    } else {
        seq![
            WritePrepareStep::BuildInput,
            WritePrepareStep::ProjectColumns,
            WritePrepareStep::FillAndReorderColumns,
        ]
    }
}

/// A write-prepare plan node, over the planner's own types of plan, plan
/// meta, table info, schema and column binding.
pub struct PaimonWritePrepare<Meta, Plan, Info, Schema, Binding> {
    pub meta: Meta,
    pub input: Plan,
    pub table_info: Info,
    pub insert_schema: Schema,
    pub select_schema: Schema,
    pub select_column_bindings: Vec<Binding>,
    pub cast_needed: bool,
}

impl<Meta, Plan, Info, Schema, Binding> PaimonWritePrepare<Meta, Plan, Info, Schema, Binding> {
    /// The same node over a new input; a write-prepare node has exactly one child.
    pub fn derive(self, children: Vec<Plan>) -> (node: Self)
        requires
            children@.len() == 1,
        ensures
            node.input == children@[0],
            node.meta == self.meta,
            node.table_info == self.table_info,
            node.insert_schema == self.insert_schema,
            node.select_schema == self.select_schema,
            node.select_column_bindings@ == self.select_column_bindings@,
            node.cast_needed == self.cast_needed,
    {
        let mut children = children;
        let input = children.remove(0);
        PaimonWritePrepare { input, ..self }
    }

    /// The steps the node adds to the pipeline, in order.
    pub fn pipeline_steps(&self) -> (steps: Vec<WritePrepareStep>)
        ensures
            steps@ == write_prepare_steps(self.cast_needed),
    {
        let mut steps: Vec<WritePrepareStep> = Vec::new();
        steps.push(WritePrepareStep::BuildInput);
        steps.push(WritePrepareStep::ProjectColumns);
        if self.cast_needed {
            steps.push(WritePrepareStep::CastSchema);
        }
        steps.push(WritePrepareStep::FillAndReorderColumns);
        assert(steps@ =~= write_prepare_steps(self.cast_needed));
        steps
    }
}

} // verus!
