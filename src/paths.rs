//! Where the monitor keeps its files, relative to the host's configuration
//! directory and to the directory of the documents it reads.
use vstd::prelude::*;

verus! {

/// What `Path::join` gives for `base` joined with `part`, as text.
pub uninterp spec fn path_join(base: Seq<char>, part: Seq<char>) -> Seq<char>;

/// Relies on `Path::join`: the joined path depends on the two paths alone,
/// and joining two UTF-8 paths gives a UTF-8 path.
#[verifier::external_body]
fn join(base: &str, part: &str) -> (r: String)
    ensures
        r@ == path_join(base@, part@),
{
    std::path::Path::new(base).join(part).to_string_lossy().into_owned()
}

/// The monitor's state directory: `vigil` under the configuration directory.
pub fn vigil_dir(host_dir: &str) -> (r: String)
    ensures
        r@ == path_join(host_dir@, "vigil"@),
{
    join(host_dir, "vigil")
}

/// The signal history.
pub fn signals_file(host_dir: &str) -> (r: String)
    ensures
        r@ == path_join(path_join(host_dir@, "vigil"@), "signals.json"@),
{
    join(vigil_dir(host_dir).as_str(), "signals.json")
}

/// The latest analysis.
pub fn analysis_file(host_dir: &str) -> (r: String)
    ensures
        r@ == path_join(path_join(host_dir@, "vigil"@), "analysis.json"@),
{
    join(vigil_dir(host_dir).as_str(), "analysis.json")
}

/// The configuration.
pub fn config_file(host_dir: &str) -> (r: String)
    ensures
        r@ == path_join(path_join(host_dir@, "vigil"@), "config.json"@),
{
    join(vigil_dir(host_dir).as_str(), "config.json")
}

/// The time of the last pulse.
pub fn pulse_state_file(host_dir: &str) -> (r: String)
    ensures
        r@ == path_join(path_join(host_dir@, "vigil"@), "pulse-state.json"@),
{
    join(vigil_dir(host_dir).as_str(), "pulse-state.json")
}

/// The host's settings, where the hooks are registered.
pub fn settings_file(host_dir: &str) -> (r: String)
    ensures
        r@ == path_join(host_dir@, "settings.json"@),
{
    join(host_dir, "settings.json")
}

/// The host's rules directory.
pub fn rules_dir(host_dir: &str) -> (r: String)
    ensures
        r@ == path_join(host_dir@, "rules"@),
{
    join(host_dir, "rules")
}

/// The protocol rules file installed for the host.
pub fn protocol_file(host_dir: &str) -> (r: String)
    ensures
        r@ == path_join(path_join(host_dir@, "rules"@), "vigil-echo.md"@),
{
    join(rules_dir(host_dir).as_str(), "vigil-echo.md")
}

/// The reflections document.
pub fn reflections_file(docs_dir: &str) -> (r: String)
    ensures
        r@ == path_join(docs_dir@, "REFLECTIONS.md"@),
{
    join(docs_dir, "REFLECTIONS.md")
}

/// The thoughts document.
pub fn thoughts_file(docs_dir: &str) -> (r: String)
    ensures
        r@ == path_join(docs_dir@, "THOUGHTS.md"@),
{
    join(docs_dir, "THOUGHTS.md")
}

/// The curiosity document.
pub fn curiosity_file(docs_dir: &str) -> (r: String)
    ensures
        r@ == path_join(docs_dir@, "CURIOSITY.md"@),
{
    join(docs_dir, "CURIOSITY.md")
}

/// The self-description document.
pub fn self_file(docs_dir: &str) -> (r: String)
    ensures
        r@ == path_join(docs_dir@, "SELF.md"@),
{
    join(docs_dir, "SELF.md")
}

} // verus!
