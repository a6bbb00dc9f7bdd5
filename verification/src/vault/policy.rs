//! The vault write policy: which writes may happen without the user's confirmation.
use vstd::prelude::*;
use crate::text::str_eq;

verus! {

/// A write that a tool or the maintenance service wants to make in the vault.
#[derive(Debug, Clone, PartialEq, Eq)]
pub enum VaultWriteOperation {
    AddIndexEntry { index_path: String, target_path: String },
    UpdateFrontmatterField { path: String, field: String },
    MarkNonSemanticMetadata { path: String, field: String },
    ModifyBodyMeaning { path: String },
    DeleteNote { path: String },
    MoveNote { from: String, to: String },
}

/// What the policy decides for a write.
#[derive(Debug, Clone, Copy, PartialEq, Eq, Structural)]
pub enum WriteDecision {
    AllowAutomatic,
    RequireConfirmation,
}

/// The shared policy that every vault write goes through.
#[derive(Debug, Default)]
pub struct VaultWritePolicy;

/// Frontmatter fields whose update is deterministic bookkeeping.
pub open spec fn is_low_risk_field(field: Seq<char>) -> bool {
    field == seq!['c', 'r', 'e', 'a', 't', 'e', 'd'] || field == seq!['u', 'p', 'd', 'a', 't', 'e', 'd']
}

/// The decision for each kind of write: index entries, non-semantic metadata and
/// the `created`/`updated` fields are automatic; everything else, including every
/// change of meaning, deletion or move, needs confirmation.
pub open spec fn decision_for(op: VaultWriteOperation) -> WriteDecision {
    match op {
        VaultWriteOperation::AddIndexEntry { .. } => WriteDecision::AllowAutomatic,
        VaultWriteOperation::MarkNonSemanticMetadata { .. } => WriteDecision::AllowAutomatic,
        VaultWriteOperation::UpdateFrontmatterField { field, .. } => if is_low_risk_field(field@) {
            WriteDecision::AllowAutomatic
        } else {
            WriteDecision::RequireConfirmation
        },
        VaultWriteOperation::ModifyBodyMeaning { .. } => WriteDecision::RequireConfirmation,
        VaultWriteOperation::DeleteNote { .. } => WriteDecision::RequireConfirmation,
        VaultWriteOperation::MoveNote { .. } => WriteDecision::RequireConfirmation,
    }
}

impl VaultWritePolicy {
    /// Decides whether `operation` may be applied automatically.
    pub fn decide(&self, operation: &VaultWriteOperation) -> (r: WriteDecision)
        ensures
            r == decision_for(*operation),
            r == WriteDecision::AllowAutomatic <==> (operation is AddIndexEntry
                || operation is MarkNonSemanticMetadata || (operation is UpdateFrontmatterField
                && is_low_risk_field(operation->UpdateFrontmatterField_field@))),
    {
        match operation {
            VaultWriteOperation::AddIndexEntry { .. } => WriteDecision::AllowAutomatic,
            VaultWriteOperation::MarkNonSemanticMetadata { .. } => WriteDecision::AllowAutomatic,
            VaultWriteOperation::UpdateFrontmatterField { field, .. } => {
                if is_low_risk_frontmatter_field(field.as_str()) {
                    WriteDecision::AllowAutomatic
                } else {
                    WriteDecision::RequireConfirmation
                }
            },
            VaultWriteOperation::ModifyBodyMeaning { .. } => WriteDecision::RequireConfirmation,
            VaultWriteOperation::DeleteNote { .. } => WriteDecision::RequireConfirmation,
            VaultWriteOperation::MoveNote { .. } => WriteDecision::RequireConfirmation,
        }
    }
}

/// Whether `field` is `created` or `updated`.
pub fn is_low_risk_frontmatter_field(field: &str) -> (r: bool)
    ensures
        r == is_low_risk_field(field@),
{
    let created = "created";
    let updated = "updated";
    proof {
        reveal_strlit("created");
        reveal_strlit("updated");
    }
    assert(created@ =~= seq!['c', 'r', 'e', 'a', 't', 'e', 'd']);
    assert(updated@ =~= seq!['u', 'p', 'd', 'a', 't', 'e', 'd']);
    str_eq(field, created) || str_eq(field, updated)
}

} // verus!
