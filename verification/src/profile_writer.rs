//! The isolated `Markitel` MT5 profile. Until the chart format is settled
//! the profile folder is created with a placeholder `chart01.chr`, and the
//! user is told to drag the EA onto a chart; the default profile is never
//! touched.

use vstd::prelude::*;

verus! {

/// The outcome of writing a terminal's `Markitel` profile.
#[derive(Clone, Debug)]
pub enum ProfileWriteOutcome {
    /// The profile exists and its chart has the EA attached.
    Written,
    /// The profile folder exists; the EA must be dragged onto a chart.
    NeedsManualDrag,
    /// The terminal was left alone, for this reason.
    Skipped { reason: String },
}

/// What to do about a terminal's `profiles/` directory.
pub enum ProfilePlan {
    /// Leave the terminal alone: this is the outcome.
    Skip(ProfileWriteOutcome),
    /// Create `profiles/Markitel` and write `chart_contents` into the file
    /// `chart_file` inside it; the outcome is then `NeedsManualDrag`.
    CreateProfile { chart_file: String, chart_contents: String },
}

/// The placeholder chart's file name inside `profiles/Markitel`.
pub const PLACEHOLDER_CHART: &'static str = "chart01.chr";

/// The placeholder chart: an empty chart block, which MT5 builds do not
/// all read the same way (hence `NeedsManualDrag`).
pub const PLACEHOLDER_CHART_CONTENTS: &'static str = "<chart>\n</chart>\n";

/// The plan for a terminal: skip it when `profiles/` is missing or a
/// `Markitel` profile exists already (never clobbered), else create the
/// profile folder holding the placeholder chart.
pub fn profile_plan(profiles_dir_exists: bool, markitel_exists: bool, profiles_dir_display: &str) -> (r: ProfilePlan)
    ensures
        match r {
            ProfilePlan::Skip(ProfileWriteOutcome::Skipped { reason }) => {
                ||| !profiles_dir_exists && reason@ == "profiles dir missing: "@ + profiles_dir_display@
                ||| profiles_dir_exists && markitel_exists && reason@ == "profile 'Markitel' already exists"@
            },
            ProfilePlan::Skip(_) => false,
            ProfilePlan::CreateProfile { chart_file, chart_contents } => {
                &&& profiles_dir_exists && !markitel_exists
                &&& chart_file@ == PLACEHOLDER_CHART@
                &&& chart_contents@ == PLACEHOLDER_CHART_CONTENTS@
            },
        },
{
    if !profiles_dir_exists {
        let mut reason = String::from_str("profiles dir missing: ");
        reason.append(profiles_dir_display);
        return ProfilePlan::Skip(ProfileWriteOutcome::Skipped { reason });
    }
    if markitel_exists {
        return ProfilePlan::Skip(
            ProfileWriteOutcome::Skipped { reason: String::from_str("profile 'Markitel' already exists") },
        );
    }
    ProfilePlan::CreateProfile {
        chart_file: String::from_str(PLACEHOLDER_CHART),
        chart_contents: String::from_str(PLACEHOLDER_CHART_CONTENTS),
    }
}

} // verus!
