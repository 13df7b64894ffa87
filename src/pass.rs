use vstd::prelude::*;

use crate::correlate::{select_targets, targets_of};
use crate::deletion::{DeletionPass, group_targets, initial_state};
use crate::group::{group_by_namespace, grouped};
use crate::model::{PodRecord, PvcRecord, strings_view};

verus! {

/// The settings a deletion pass runs with.
pub struct PassConfig {
    pub storage_classes: Vec<String>,
    pub allow_uncontrolled: bool,
    pub dry_run: bool,
}

/// Why a configuration is refused.
pub enum ConfigError {
    /// No storage class was configured.
    NoStorageClasses,
}

impl PassConfig {
    /// A configuration for a pass, refused when `storage_classes` is empty.
    pub fn new(storage_classes: Vec<String>, allow_uncontrolled: bool, dry_run: bool) -> (r: Result<
        PassConfig,
        ConfigError,
    >)
        ensures
            storage_classes@.len() == 0 <==> r is Err,
            r matches Ok(c) ==> c.storage_classes@ == storage_classes@ && c.allow_uncontrolled
                == allow_uncontrolled && c.dry_run == dry_run,
    {
        if storage_classes.len() == 0 {
            Err(ConfigError::NoStorageClasses)
        } else {
            Ok(PassConfig { storage_classes, allow_uncontrolled, dry_run })
        }
    }
}

/// Plans a pass over a snapshot of claims and pods: the targets, grouped by
/// namespace, each to be deleted with the configured dry-run flag.
pub fn plan_pass(pvcs: &Vec<PvcRecord>, pods: &Vec<PodRecord>, config: &PassConfig) -> (r: DeletionPass)
    ensures
        r.wf(),
        r@ == initial_state(
            group_targets(
                grouped(targets_of(pvcs@, pods@, strings_view(config.storage_classes@), config.allow_uncontrolled)),
            ),
            config.dry_run,
        ),
{
    let targets = select_targets(pvcs, pods, &config.storage_classes, config.allow_uncontrolled);
    let groups = group_by_namespace(&targets);
    DeletionPass::new(&groups, config.dry_run)
}

} // verus!
