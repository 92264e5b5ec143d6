//! The remote commands the driver issues, built as exact strings: the fixed
//! provisioning sequence, the experiment preparation and workload commands,
//! the measurement write, and the single result line the orchestrator
//! parses. Values interpolated into a shell command are single-quoted, with
//! every embedded quote escaped.

use vstd::prelude::*;
use vstd::string::StringExecFns;
use crate::codec::ser;
use crate::descriptor::ExpConfig;
use crate::namer::{artifact_path, results_dir, spec_artifact_path, spec_results_dir};
use crate::strutil::{dec_digits, push_char, u64_to_string};

verus! {

/// Shell escaping of one character inside single quotes: a quote closes,
/// stands escaped, and reopens; everything else stands as itself.
pub open spec fn sh_escape_char(c: char) -> Seq<char> {
    if c == '\'' {
        seq!['\'', '\\', '\'', '\'']
    } else {
        seq![c]
    }
}

/// Shell escaping of a whole text, without the outer quotes.
pub open spec fn sh_escaped(s: Seq<char>) -> Seq<char>
    decreases s.len(),
{
    if s.len() == 0 {
        Seq::empty()
    } else {
        sh_escape_char(s[0]) + sh_escaped(s.subrange(1, s.len() as int))
    }
}

/// A text quoted for safe interpolation into a shell command.
pub open spec fn sh_quoted(s: Seq<char>) -> Seq<char> {
    seq!['\''] + sh_escaped(s) + seq!['\'']
}

/// Shell-escaping a text one character longer appends that character's
/// escape.
pub proof fn lemma_sh_escaped_snoc(t: Seq<char>, c: char)
    ensures
        sh_escaped(t.push(c)) == sh_escaped(t) + sh_escape_char(c),
    decreases t.len(),
{
    if t.len() == 0 {
        assert(t.push(c)[0] == c);
        let e = t.push(c).subrange(1, t.push(c).len() as int);
        assert(e =~= Seq::<char>::empty());
        assert(sh_escaped(e) == Seq::<char>::empty());
        assert(sh_escaped(t) == Seq::<char>::empty());
        assert(sh_escaped(t.push(c)) == sh_escape_char(c) + sh_escaped(e));
        assert(sh_escape_char(c) + sh_escaped(e) =~= sh_escape_char(c));
        assert(sh_escaped(t) + sh_escape_char(c) =~= sh_escape_char(c));
    } else {
        let t2 = t.subrange(1, t.len() as int);
        assert(t.push(c).subrange(1, t.push(c).len() as int) =~= t2.push(c));
        lemma_sh_escaped_snoc(t2, c);
        assert(t.push(c)[0] == t[0]);
        assert(sh_escaped(t.push(c)) == sh_escape_char(t[0]) + (sh_escaped(t2) + sh_escape_char(
            c,
        )));
        assert(sh_escape_char(t[0]) + (sh_escaped(t2) + sh_escape_char(c)) =~= (sh_escape_char(
            t[0],
        ) + sh_escaped(t2)) + sh_escape_char(c));
    }
}

/// Quotes a text for safe interpolation into a shell command.
pub fn shell_quote(s: &str) -> (r: String)
    ensures
        r@ == sh_quoted(s@),
{
    let n = s.unicode_len();
    let mut out = String::new();
    push_char(&mut out, '\'');
    let mut i: usize = 0;
    while i < n
        invariant
            i <= n,
            n == s@.len(),
            out@ == seq!['\''] + sh_escaped(s@.take(i as int)),
        decreases n - i,
    {
        let c = s.get_char(i);
        proof {
            lemma_sh_escaped_snoc(s@.take(i as int), c);
            assert(s@.take(i as int).push(c) =~= s@.take(i as int + 1));
        }
        if c == '\'' {
            push_char(&mut out, '\'');
            push_char(&mut out, '\\');
            push_char(&mut out, '\'');
            push_char(&mut out, '\'');
            assert(out@ =~= seq!['\''] + (sh_escaped(s@.take(i as int)) + sh_escape_char(c)));
        } else {
            push_char(&mut out, c);
            assert(out@ =~= seq!['\''] + (sh_escaped(s@.take(i as int)) + sh_escape_char(c)));
        }
        i += 1;
    }
    push_char(&mut out, '\'');
    proof {
        assert(s@.take(n as int) =~= s@);
        assert(out@ =~= sh_quoted(s@));
    }
    out
}

/// A list of words joined by single spaces.
pub open spec fn spec_joined(items: Seq<Seq<char>>) -> Seq<char>
    decreases items.len(),
{
    if items.len() == 0 {
        Seq::empty()
    } else if items.len() == 1 {
        items[0]
    } else {
        items[0] + seq![' '] + spec_joined(items.subrange(1, items.len() as int))
    }
}

/// Joins the words from position `i` on with single spaces.
fn join_from(items: &Vec<String>, i: usize) -> (r: String)
    requires
        i <= items@.len(),
    ensures
        r@ == spec_joined(
            items@.map_values(|s: String| s@).subrange(i as int, items@.len() as int),
        ),
    decreases items@.len() - i,
{
    let ghost views = items@.map_values(|s: String| s@);
    let ghost tail = views.subrange(i as int, items@.len() as int);
    let mut out = String::new();
    if i < items.len() {
        out.append(items[i].as_str());
        assert(tail[0] == items@[i as int]@);
        if i + 1 < items.len() {
            push_char(&mut out, ' ');
            let rest = join_from(items, i + 1);
            out.append(rest.as_str());
            proof {
                assert(tail.subrange(1, tail.len() as int) =~= views.subrange(
                    i + 1,
                    items@.len() as int,
                ));
                assert(out@ =~= tail[0] + seq![' '] + spec_joined(
                    tail.subrange(1, tail.len() as int),
                ));
            }
        } else {
            assert(tail.len() == 1);
        }
    } else {
        assert(tail.len() == 0);
    }
    out
}

/// Joins a list of words with single spaces.
pub fn join_spaced(items: &Vec<String>) -> (r: String)
    ensures
        r@ == spec_joined(items@.map_values(|s: String| s@)),
{
    let r = join_from(items, 0);
    proof {
        let views = items@.map_values(|s: String| s@);
        assert(views.subrange(0, items@.len() as int) =~= views);
    }
    r
}

/// The fixed dependency set the provisioning sequence installs.
pub open spec fn spec_dep_list() -> Seq<Seq<char>> {
    seq!["build-essential"@, "bison"@, "flex"@]
}

/// Refreshes the remote package index.
pub open spec fn spec_update_cmd() -> Seq<char> {
    "sudo apt update"@
}

/// Upgrades the remote packages.
pub open spec fn spec_upgrade_cmd() -> Seq<char> {
    "sudo apt upgrade -y"@
}

/// Installs the fixed dependency set, as one command over the joined list.
pub open spec fn spec_install_cmd() -> Seq<char> {
    "sudo apt install -y "@ + spec_joined(spec_dep_list())
}

/// The fixed provisioning sequence: refresh the package index, upgrade,
/// install the dependency set — exactly three commands, in this order.
pub fn setup_commands() -> (r: Vec<String>)
    ensures
        r@.len() == 3,
        r@[0]@ == spec_update_cmd(),
        r@[1]@ == spec_upgrade_cmd(),
        r@[2]@ == spec_install_cmd(),
{
    let mut deps: Vec<String> = Vec::new();
    deps.push(String::from_str("build-essential"));
    deps.push(String::from_str("bison"));
    deps.push(String::from_str("flex"));
    proof {
        assert(deps@.map_values(|s: String| s@) =~= spec_dep_list());
    }
    let joined = join_spaced(&deps);
    let mut install = String::from_str("sudo apt install -y ");
    install.append(joined.as_str());
    let mut out: Vec<String> = Vec::new();
    out.push(String::from_str("sudo apt update"));
    out.push(String::from_str("sudo apt upgrade -y"));
    out.push(install);
    out
}

/// Creates the results directory, idempotently.
pub open spec fn spec_mkdir_cmd(home: Seq<char>) -> Seq<char> {
    "mkdir -p "@ + spec_results_dir(home)
}

/// Writes the serialized descriptor to its `params` artifact, the
/// serialized text shell-quoted.
pub open spec fn spec_params_cmd(d: ExpConfig, home: Seq<char>) -> Seq<char> {
    "echo "@ + sh_quoted(ser(d)) + " | tee "@ + spec_artifact_path(d, "params"@, home)
}

/// One workload iteration: sleep for the configured seconds.
pub open spec fn spec_sleep_cmd(secs: nat) -> Seq<char> {
    "sleep "@ + dec_digits(secs)
}

/// Writes the measured elapsed text to the `time` artifact.
pub open spec fn spec_time_cmd(d: ExpConfig, home: Seq<char>, elapsed: Seq<char>) -> Seq<char> {
    "echo "@ + elapsed + " | tee "@ + spec_artifact_path(d, "time"@, home)
}

/// The one line the orchestrator parses: the fixed prefix and the path to
/// collect, nothing else.
pub open spec fn spec_result_line(path: Seq<char>) -> Seq<char> {
    "RESULTS: "@ + path
}

/// Renders the command that creates the results directory.
pub fn mkdir_command(home: &str) -> (r: String)
    ensures
        r@ == spec_mkdir_cmd(home@),
{
    let mut out = String::from_str("mkdir -p ");
    let dir = results_dir(home);
    out.append(dir.as_str());
    out
}

/// Renders the command that persists the descriptor's provenance.
pub fn params_command(d: &ExpConfig, home: &str) -> (r: String)
    requires
        d.wf(),
    ensures
        r@ == spec_params_cmd(*d, home@),
{
    let json = crate::codec::serialize_descriptor(d);
    let quoted = shell_quote(json.as_str());
    let mut out = String::from_str("echo ");
    out.append(quoted.as_str());
    out.append(" | tee ");
    let path = artifact_path(d, "params", home);
    out.append(path.as_str());
    assert(out@ =~= spec_params_cmd(*d, home@));
    out
}

/// Renders one workload sleep command.
pub fn sleep_command(secs: u64) -> (r: String)
    ensures
        r@ == spec_sleep_cmd(secs as nat),
{
    let mut out = String::from_str("sleep ");
    let digits = u64_to_string(secs);
    out.append(digits.as_str());
    out
}

/// The experiment preparation: create the results directory, then persist
/// provenance — exactly two commands, in this order.
pub fn experiment_prep_commands(d: &ExpConfig, home: &str) -> (r: Vec<String>)
    requires
        d.wf(),
    ensures
        r@.len() == 2,
        r@[0]@ == spec_mkdir_cmd(home@),
        r@[1]@ == spec_params_cmd(*d, home@),
{
    let mut out: Vec<String> = Vec::new();
    out.push(mkdir_command(home));
    out.push(params_command(d, home));
    out
}

/// The workload: one sleep command per configured iteration.
pub fn workload_commands(d: &ExpConfig) -> (r: Vec<String>)
    ensures
        r@.len() == d.iterations as int,
        forall|k: int| 0 <= k < r@.len() ==> r@[k]@ == spec_sleep_cmd(d.time as nat),
{
    let mut out: Vec<String> = Vec::new();
    let mut i: u64 = 0;
    while i < d.iterations
        invariant
            i <= d.iterations,
            out@.len() == i as int,
            forall|k: int| 0 <= k < out@.len() ==> out@[k]@ == spec_sleep_cmd(d.time as nat),
        decreases d.iterations - i,
    {
        out.push(sleep_command(d.time));
        i += 1;
    }
    out
}

/// Renders the command that persists the measured elapsed time.
pub fn time_command(d: &ExpConfig, home: &str, elapsed: &str) -> (r: String)
    requires
        d.wf(),
    ensures
        r@ == spec_time_cmd(*d, home@, elapsed@),
{
    let mut out = String::from_str("echo ");
    out.append(elapsed);
    out.append(" | tee ");
    let path = artifact_path(d, "time", home);
    out.append(path.as_str());
    assert(out@ =~= spec_time_cmd(*d, home@, elapsed@));
    out
}

/// Renders the one result line: the fixed `RESULTS: ` prefix and the run's
/// base directory path.
pub fn result_line(d: &ExpConfig, home: &str) -> (r: String)
    requires
        d.wf(),
    ensures
        r@ == spec_result_line(spec_artifact_path(*d, Seq::<char>::empty(), home@)),
{
    let mut out = String::from_str("RESULTS: ");
    let path = artifact_path(d, "", home);
    proof {
        reveal_strlit("");
        assert(""@ =~= Seq::<char>::empty());
    }
    out.append(path.as_str());
    out
}

} // verus!
