//! Settings of the front-ends that are kept beside the data.

use vstd::prelude::*;
use crate::text::{join_path, joined};

verus! {

/// How the front-end is to be shown.
#[derive(Debug, Clone, Copy, PartialEq, Eq, Structural)]
pub struct AccessibilitySettings {
    pub reduce_motion: bool,
    pub high_contrast: bool,
    pub larger_text: bool,
}

impl Default for AccessibilitySettings {
    fn default() -> (s: AccessibilitySettings)
        ensures
            !s.reduce_motion && !s.high_contrast && !s.larger_text,
    {
        AccessibilitySettings { reduce_motion: false, high_contrast: false, larger_text: false }
    }
}

/// What the front-end remembers between runs.
#[derive(Debug, Clone, Copy, PartialEq, Eq, Structural)]
pub struct AppState {
    /// Whether the user has been through the first-run steps.
    pub onboarded: bool,
}

impl Default for AppState {
    fn default() -> (s: AppState)
        ensures
            !s.onboarded,
    {
        AppState { onboarded: false }
    }
}

/// Where the accessibility settings are kept.
pub fn file_path(data_dir: &str) -> (path: String)
    ensures
        path@ == joined(data_dir@, "a11y.toml"@),
{
    join_path(data_dir, "a11y.toml")
}

/// Where the front-end's state is kept.
pub fn app_state_path(data_dir: &str) -> (path: String)
    ensures
        path@ == joined(data_dir@, "app_state.toml"@),
{
    join_path(data_dir, "app_state.toml")
}

} // verus!
