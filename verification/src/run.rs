//! The whole run: resolve a revision expression, then parse and validate
//! every resolved commit in order, stopping at the first failure.

use vstd::prelude::*;

use crate::checks::check_message;
use crate::checks::error_reflects;
use crate::checks::message_passes;
use crate::config::Config;
use crate::error::CheckError;
use crate::error::RunError;
use crate::repo::spec_resolve;
use crate::repo::CommitRecord;
use crate::repo::wf_seq;
use crate::repo::Repository;

verus! {

/// Every resolved message passes every enabled rule.
pub open spec fn all_pass(recs: Seq<CommitRecord>, cfg: Config) -> bool {
    forall|k: int| 0 <= k < recs.len() ==> message_passes(#[trigger] recs[k].message@, cfg)
}

/// The commit at `k` is the first of the run whose message fails a rule, and
/// `id` and `error` report it.
pub open spec fn first_failure(
    recs: Seq<CommitRecord>,
    cfg: Config,
    k: int,
    id: Seq<char>,
    error: CheckError,
) -> bool {
    &&& 0 <= k < recs.len()
    &&& !message_passes(recs[k].message@, cfg)
    &&& forall|m: int| 0 <= m < k ==> message_passes(#[trigger] recs[m].message@, cfg)
    &&& id == recs[k].id@
    &&& error_reflects(recs[k].message@, cfg, error)
}

/// Validate every commit the expression resolves to, in resolution order
/// (newest first). The run is all-or-nothing: it reports the unresolvable
/// expression, or the first commit whose message fails a check together with
/// that check's error, and says nothing more of later commits.
pub fn check_all(repo: &Repository, expr: &str, config: &Config) -> (r: Result<(), RunError>)
    requires
        wf_seq(repo@),
    ensures
        r is Ok <==> (spec_resolve(repo@, expr@) matches Some(recs) && all_pass(recs, *config)),
        match r {
            Err(RunError::Revision { expression }) => spec_resolve(repo@, expr@) is None
                && expression@ == expr@,
            _ => true,
        },
        spec_resolve(repo@, expr@) is None ==> (match r {
            Err(RunError::Revision { .. }) => true,
            _ => false,
        }),
        match r {
            Err(RunError::Commit { id, error }) => (match spec_resolve(repo@, expr@) {
                Some(recs) => exists|k: int| first_failure(recs, *config, k, id@, error),
                None => false,
            }),
            _ => true,
        },
{
    let records = match repo.resolve(expr) {
        Ok(v) => v,
        Err(e) => {
            return Err(e);
        },
    };
    let mut k: usize = 0;
    while k < records.len()
        invariant
            k <= records.len(),
            wf_seq(repo@),
            spec_resolve(repo@, expr@) == Some(records@),
            forall|m: int| 0 <= m < k ==> message_passes(#[trigger] records@[m].message@, *config),
        decreases records.len() - k,
    {
        match check_message(records[k].message.as_str(), config) {
            Ok(()) => {},
            Err(e) => {
                let rec_id = records[k].id.clone();
                proof {
                    assert(rec_id@ == records@[k as int].id@);
                    assert(first_failure(records@, *config, k as int, rec_id@, e));
                    assert(!all_pass(records@, *config));
                    assert(exists|kk: int| first_failure(records@, *config, kk, rec_id@, e));
                    let sr = spec_resolve(repo@, expr@);
                    assert(sr == Some(records@));
                    assert(sr->0 == records@);
                    assert(exists|kk: int| first_failure(sr->0, *config, kk, rec_id@, e));
                }
                let out = RunError::Commit { id: rec_id, error: e };
                proof {
                    assert(out matches RunError::Commit { id, error } && id == rec_id && error
                        == e);
                    assert(match out {
                        RunError::Commit { id, error } => (match spec_resolve(repo@, expr@) {
                            Some(recs) => exists|kk: int| first_failure(recs, *config, kk, id@, error),
                            None => false,
                        }),
                        _ => true,
                    });
                }
                return Err(out);
            },
        }
        k = k + 1;
    }
    Ok(())
}

} // verus!
