//! Items of the maintenance inbox.
use vstd::prelude::*;

verus! {

/// The issues found by a maintenance scan.
#[derive(Debug, Clone, PartialEq, Eq)]
pub struct MaintenanceInbox {
    pub items: Vec<MaintenanceItem>,
}

/// One issue: its risk group, its kind, the file it concerns and the evidence.
#[derive(Debug, Clone, PartialEq, Eq)]
pub struct MaintenanceItem {
    pub priority: String,
    pub kind: String,
    pub file: String,
    pub evidence: String,
    pub requires_confirmation: bool,
}

/// Priority, kind, file, evidence and whether confirmation is needed.
pub type ItemView = (Seq<char>, Seq<char>, Seq<char>, Seq<char>, bool);

/// The abstract value of an item.
pub open spec fn item_view(i: MaintenanceItem) -> ItemView {
    (i.priority@, i.kind@, i.file@, i.evidence@, i.requires_confirmation)
}

/// The views of a sequence of items.
pub open spec fn items_view(v: Seq<MaintenanceItem>) -> Seq<ItemView> {
    v.map_values(|i: MaintenanceItem| item_view(i))
}

} // verus!
