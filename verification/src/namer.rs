//! The output namer: a pure function from a descriptor and an artifact role
//! to a file name, and from there to a remote path under the results
//! directory. Names depend only on the descriptor's label and timestamp, two
//! different roles never collide, and the empty role denotes the run's base
//! name, a strict prefix of every real artifact name.

use vstd::prelude::*;
use vstd::string::StringExecFns;
use crate::codec::lemma_scan_ts_exact;
use crate::descriptor::ExpConfig;
use crate::strutil::push_char;

verus! {

/// The base name of one run: label, separator, timestamp text.
pub open spec fn base_name(d: ExpConfig) -> Seq<char> {
    d.exp@ + seq!['_'] + d.timestamp.text()
}

/// The file name for one artifact role; the empty role denotes the base
/// name itself.
pub open spec fn spec_file_name(d: ExpConfig, role: Seq<char>) -> Seq<char> {
    if role.len() == 0 {
        base_name(d)
    } else {
        base_name(d) + seq!['.'] + role
    }
}

/// The fixed results directory under the remote user's home.
pub open spec fn spec_results_dir(home: Seq<char>) -> Seq<char> {
    home + "/results"@
}

/// The full remote path of one artifact.
pub open spec fn spec_artifact_path(d: ExpConfig, role: Seq<char>, home: Seq<char>) -> Seq<char> {
    spec_results_dir(home) + seq!['/'] + spec_file_name(d, role)
}

/// Renders the file name for one artifact role of this descriptor.
pub fn file_name(d: &ExpConfig, role: &str) -> (r: String)
    requires
        d.wf(),
    ensures
        r@ == spec_file_name(*d, role@),
{
    let mut out = String::new();
    out.append(d.exp.as_str());
    push_char(&mut out, '_');
    let ts = d.timestamp.render();
    out.append(ts.as_str());
    if !role.is_empty() {
        push_char(&mut out, '.');
        out.append(role);
    }
    assert(out@ =~= spec_file_name(*d, role@));
    out
}

/// Renders the results directory path under the given remote home.
pub fn results_dir(home: &str) -> (r: String)
    ensures
        r@ == spec_results_dir(home@),
{
    let mut out = String::new();
    out.append(home);
    out.append("/results");
    out
}

/// Renders the full remote path of one artifact.
pub fn artifact_path(d: &ExpConfig, role: &str, home: &str) -> (r: String)
    requires
        d.wf(),
    ensures
        r@ == spec_artifact_path(*d, role@, home@),
{
    let mut out = results_dir(home);
    push_char(&mut out, '/');
    let name = file_name(d, role);
    out.append(name.as_str());
    assert(out@ =~= spec_artifact_path(*d, role@, home@));
    out
}

/// Naming reads only the label and the timestamp: two descriptors that agree
/// on those two fields get the same name for every role, whatever their
/// other parameters. The shared-timestamp collision this implies is
/// intentional and inherited from the naming scheme.
pub proof fn lemma_name_ignores_parameters(d1: ExpConfig, d2: ExpConfig, role: Seq<char>)
    requires
        d1.exp@ == d2.exp@,
        d1.timestamp == d2.timestamp,
    ensures
        spec_file_name(d1, role) == spec_file_name(d2, role),
{
    assert(base_name(d1) == base_name(d2));
}

/// Two distinct roles never produce the same file name for one descriptor.
pub proof fn lemma_distinct_roles_distinct_names(d: ExpConfig, r1: Seq<char>, r2: Seq<char>)
    requires
        r1 != r2,
    ensures
        spec_file_name(d, r1) != spec_file_name(d, r2),
{
    let b = base_name(d);
    if r1.len() == 0 && r2.len() == 0 {
        assert(r1 =~= r2);
    } else if r1.len() == 0 {
        assert(spec_file_name(d, r1).len() == b.len());
        assert(spec_file_name(d, r2).len() == b.len() + 1 + r2.len());
    } else if r2.len() == 0 {
        assert(spec_file_name(d, r1).len() == b.len() + 1 + r1.len());
        assert(spec_file_name(d, r2).len() == b.len());
    } else {
        if spec_file_name(d, r1) == spec_file_name(d, r2) {
            assert((b + seq!['.'] + r1).len() == b.len() + 1 + r1.len());
            assert((b + seq!['.'] + r2).len() == b.len() + 1 + r2.len());
            assert(r1.len() == r2.len());
            assert(r1 =~= r2) by {
                assert forall|i: int| 0 <= i < r1.len() implies r1[i] == r2[i] by {
                    assert((b + seq!['.'] + r1)[b.len() + 1 + i] == r1[i]);
                    assert((b + seq!['.'] + r2)[b.len() + 1 + i] == r2[i]);
                }
            }
            assert(false);
        }
    }
}

/// Two descriptors with different timestamps never collide: for any one
/// role, equal file names force equal timestamps, whatever the labels and
/// parameters are.
pub proof fn lemma_distinct_timestamps_distinct_names(
    d1: ExpConfig,
    d2: ExpConfig,
    role: Seq<char>,
)
    requires
        d1.wf(),
        d2.wf(),
        d1.timestamp != d2.timestamp,
    ensures
        spec_file_name(d1, role) != spec_file_name(d2, role),
{
    if spec_file_name(d1, role) == spec_file_name(d2, role) {
        let b1 = base_name(d1);
        let b2 = base_name(d2);
        if role.len() > 0 {
            assert((b1 + seq!['.'] + role).len() == b1.len() + 1 + role.len());
            assert((b2 + seq!['.'] + role).len() == b2.len() + 1 + role.len());
            assert(b1.len() == b2.len());
            assert(b1 =~= b2) by {
                assert forall|i: int| 0 <= i < b1.len() implies b1[i] == b2[i] by {
                    assert((b1 + seq!['.'] + role)[i] == b1[i]);
                    assert((b2 + seq!['.'] + role)[i] == b2[i]);
                }
            }
        }
        let t1 = d1.timestamp.text();
        let t2 = d2.timestamp.text();
        assert(t1.len() == 19);
        assert(t2.len() == 19);
        assert(b1.len() == d1.exp@.len() + 1 + 19);
        assert(b2.len() == d2.exp@.len() + 1 + 19);
        let off = (d1.exp@.len() + 1) as int;
        assert(t1 =~= t2) by {
            assert forall|k: int| 0 <= k < 19 implies t1[k] == t2[k] by {
                assert(b1[off + k] == t1[k]);
                assert(b2[off + k] == t2[k]);
            }
        }
        assert(t1.subrange(0, 19) =~= t1);
        assert(t2.subrange(0, 19) =~= t2);
        lemma_scan_ts_exact(t1, 0, d1.timestamp);
        lemma_scan_ts_exact(t2, 0, d2.timestamp);
        assert(false);
    }
}

/// The empty role names the run's base name, a strict prefix of the file
/// name of every real role.
pub proof fn lemma_empty_role_strict_prefix(d: ExpConfig, role: Seq<char>)
    requires
        role.len() > 0,
    ensures
        spec_file_name(d, Seq::<char>::empty()).is_prefix_of(spec_file_name(d, role)),
        spec_file_name(d, Seq::<char>::empty()).len() < spec_file_name(d, role).len(),
{
    let b = base_name(d);
    let full = spec_file_name(d, role);
    assert(b =~= full.subrange(0, b.len() as int));
}

} // verus!
