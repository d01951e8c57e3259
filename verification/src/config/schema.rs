//! The configuration model: what a `.baraddur.toml` describes once parsed.
use vstd::prelude::*;

verus! {

/// The whole configuration.
#[derive(Debug)]
pub struct Config {
    pub watch: WatchConfig,
    pub output: OutputConfig,
    pub on_failure: OnFailureConfig,
    pub steps: Vec<Step>,
    /// Named subsets of the steps, in the order their names sort.
    pub profiles: Vec<(String, Vec<String>)>,
}

/// `[watch]`: which files the watcher reports and how it debounces.
#[derive(Debug, Clone)]
pub struct WatchConfig {
    pub extensions: Vec<String>,
    pub debounce_ms: u64,
    pub ignore: Vec<String>,
}

/// `[output]`.
#[derive(Debug, Clone)]
pub struct OutputConfig {
    pub clear_screen: bool,
    pub show_passing: bool,
}

/// `[on_failure]`: the post-failure hook. When `enabled` and a completed run
/// fails, `cmd` receives the combined output of the failed steps on stdin,
/// preceded by `prompt` when that is not empty.
#[derive(Debug, Clone)]
pub struct OnFailureConfig {
    pub enabled: bool,
    pub cmd: String,
    pub prompt: String,
    pub timeout_secs: u64,
}

/// One `[[steps]]` entry.
#[derive(Debug, Clone)]
pub struct Step {
    pub name: String,
    pub cmd: String,
    pub parallel: bool,
    /// Glob patterns; when a run is triggered by file changes the step runs
    /// only if one of the changed paths matches. Empty means "always run".
    pub if_changed: Vec<String>,
}

/// The plain contents of a `Step`.
pub struct StepView {
    pub name: Seq<char>,
    pub cmd: Seq<char>,
    pub parallel: bool,
    pub if_changed: Seq<Seq<char>>,
}

pub open spec fn strings_view(v: Seq<String>) -> Seq<Seq<char>> {
    v.map_values(|s: String| s@)
}

impl View for Step {
    type V = StepView;

    open spec fn view(&self) -> StepView {
        StepView {
            name: self.name@,
            cmd: self.cmd@,
            parallel: self.parallel,
            if_changed: strings_view(self.if_changed@),
        }
    }
}

pub open spec fn steps_view(v: Seq<Step>) -> Seq<StepView> {
    v.map_values(|s: Step| s@)
}

/// A copy of a list of strings.
pub fn copy_strings(v: &Vec<String>) -> (r: Vec<String>)
    ensures
        strings_view(r@) == strings_view(v@),
        r@.len() == v@.len(),
{
    let mut r: Vec<String> = Vec::new();
    let mut i: usize = 0;
    while i < v.len()
        invariant
            i <= v.len(),
            r@.len() == i,
            forall|j: int| 0 <= j < i ==> r@[j]@ == v@[j]@,
        decreases v.len() - i,
    {
        r.push(v[i].clone());
        i = i + 1;
    }
    assert(strings_view(r@) =~= strings_view(v@));
    r
}

impl Step {
    /// A copy of this step.
    pub fn duplicate(&self) -> (r: Step)
        ensures
            r@ == self@,
    {
        Step {
            name: self.name.clone(),
            cmd: self.cmd.clone(),
            parallel: self.parallel,
            if_changed: copy_strings(&self.if_changed),
        }
    }
}

impl OnFailureConfig {
    /// A copy of this hook configuration.
    pub fn duplicate(&self) -> (r: OnFailureConfig)
        ensures
            r.enabled == self.enabled,
            r.cmd@ == self.cmd@,
            r.prompt@ == self.prompt@,
            r.timeout_secs == self.timeout_secs,
    {
        OnFailureConfig {
            enabled: self.enabled,
            cmd: self.cmd.clone(),
            prompt: self.prompt.clone(),
            timeout_secs: self.timeout_secs,
        }
    }
}

/// `watch.debounce_ms` when the file leaves it out.
pub fn default_debounce_ms() -> (r: u64)
    ensures
        r == 1500,
{
    1500
}

/// The default of boolean fields that are on unless switched off.
pub fn default_true() -> (r: bool)
    ensures
        r,
{
    true
}

/// `on_failure.timeout_secs` when the file leaves it out.
pub fn default_on_failure_timeout() -> (r: u64)
    ensures
        r == 30,
{
    30
}

impl Default for OutputConfig {
    fn default() -> (r: Self)
        ensures
            r.clear_screen,
            !r.show_passing,
    {
        OutputConfig { clear_screen: default_true(), show_passing: false }
    }
}

impl Default for OnFailureConfig {
    fn default() -> (r: Self)
        ensures
            !r.enabled,
            r.cmd@.len() == 0,
            r.prompt@.len() == 0,
            r.timeout_secs == 30,
    {
        OnFailureConfig {
            enabled: false,
            cmd: String::new(),
            prompt: String::new(),
            timeout_secs: default_on_failure_timeout(),
        }
    }
}

} // verus!
