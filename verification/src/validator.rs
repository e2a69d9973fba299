//! Per-host calibration: a profile of the responses a host returns for
//! deliberately nonexistent paths, used to suppress catch-all noise and
//! to gate directory descent.

use vstd::prelude::*;
use vstd::string::*;

verus! {

/// Largest spread between the smallest and the largest body size seen
/// during calibration for the profile still to count as consistent.
pub const CALIBRATION_SIZE_TOLERANCE: usize = 16;

/// Options consulted when deciding whether a confirmed directory is
/// descended into.
#[derive(Clone, Copy, Debug)]
pub struct ScanOpts {
    /// Descend into directories whose calibration code is 401.
    pub scan_401: bool,
    /// Descend into directories whose calibration code is 403.
    pub scan_403: bool,
}

/// The calibration result for one host: the response signature seen for
/// known-nonexistent paths. A finding matching the signature is noise.
#[derive(Clone, Copy, Debug)]
pub struct ValidatorProfile {
    /// Status code the host returned for every calibration probe.
    pub code: u32,
    /// Smallest body size seen during calibration.
    pub min_size: usize,
    /// Largest body size seen during calibration.
    pub max_size: usize,
    /// True when the calibration probes answered consistently.
    pub reliable: bool,
}

/// A directory confirmed scannable, sent from the validator to the
/// scheduler.
#[derive(Clone, Debug)]
pub struct DirectoryInfo {
    /// Directory URL, or the reserved end marker.
    pub url: String,
    /// Index of the base host this directory belongs to.
    pub parent_index: usize,
    /// Number of path segments of the parent directory.
    pub parent_depth: u32,
    /// Profile for the directory's host, when one was built.
    pub validator: Option<ValidatorProfile>,
}

/// All probes returned the same status code.
pub open spec fn codes_consistent(probes: Seq<(u32, usize)>) -> bool {
    forall|i: int| 0 <= i < probes.len() ==> (#[trigger] probes[i]).0 == probes[0].0
}

/// Smallest body size among the probes.
pub open spec fn probes_min_size(probes: Seq<(u32, usize)>) -> int
    decreases probes.len(),
{
    if probes.len() <= 1 {
        if probes.len() == 0 {
            0
        } else {
            probes[0].1 as int
        }
    } else {
        let m = probes_min_size(probes.drop_last());
        if probes.last().1 < m {
            probes.last().1 as int
        } else {
            m
        }
    }
}

/// Largest body size among the probes.
pub open spec fn probes_max_size(probes: Seq<(u32, usize)>) -> int
    decreases probes.len(),
{
    if probes.len() <= 1 {
        if probes.len() == 0 {
            0
        } else {
            probes[0].1 as int
        }
    } else {
        let m = probes_max_size(probes.drop_last());
        if probes.last().1 > m {
            probes.last().1 as int
        } else {
            m
        }
    }
}

/// The calibration probes answered consistently: one status code, and
/// body sizes identical or within the tolerance.
pub open spec fn calibration_consistent(probes: Seq<(u32, usize)>) -> bool {
    &&& probes.len() > 0
    &&& codes_consistent(probes)
    &&& probes_max_size(probes) - probes_min_size(probes) <= CALIBRATION_SIZE_TOLERANCE
}

impl ValidatorProfile {
    /// The signature a finding must show for the profile to suppress it.
    /// An unreliable profile suppresses nothing.
    pub open spec fn spec_matches(&self, code: u32, content_len: usize) -> bool {
        &&& self.reliable
        &&& code == self.code
        &&& self.min_size <= content_len <= self.max_size
    }

    /// True when a response with this code and body size is calibration
    /// noise for the host.
    pub fn matches_signature(&self, code: u32, content_len: usize) -> (r: bool)
        ensures
            r == self.spec_matches(code, content_len),
    {
        self.reliable && code == self.code && self.min_size <= content_len
            && content_len <= self.max_size
    }

    /// Whether the directory this profile was built for is descended
    /// into.
    pub open spec fn spec_scan_folder(&self, opts: ScanOpts) -> bool {
        &&& self.reliable
        &&& (self.code != 401 || opts.scan_401)
        &&& (self.code != 403 || opts.scan_403)
    }

    /// Decides whether the directory is descended into: refused for an
    /// unreliable calibration, and for access-denied hosts unless the
    /// options ask for them.
    pub fn scan_folder(&self, opts: &ScanOpts) -> (r: bool)
        ensures
            r == self.spec_scan_folder(*opts),
    {
        self.reliable && (self.code != 401 || opts.scan_401) && (self.code != 403
            || opts.scan_403)
    }

    /// Human-readable note appended when a directory is skipped.
    pub fn print_alert(&self) -> (r: String)
        ensures
            !self.reliable ==> r@ == " (calibration inconsistent)"@,
            self.reliable ==> r@ == " (access denied during calibration)"@,
    {
        if !self.reliable {
            " (calibration inconsistent)".to_owned()
        } else {
            " (access denied during calibration)".to_owned()
        }
    }
}

/// Builds the profile for one host from the `(code, body size)` pairs
/// that its calibration probes returned.
pub fn calibrate(probes: &Vec<(u32, usize)>) -> (r: ValidatorProfile)
    requires
        probes@.len() >= 1,
    ensures
        r.reliable == calibration_consistent(probes@),
        r.reliable ==> r.code == probes@[0].0 && r.min_size == probes_min_size(probes@)
            && r.max_size == probes_max_size(probes@),
        !r.reliable ==> r.code == 0 && r.min_size == 0 && r.max_size == 0,
{
    let first = probes[0];
    let mut consistent = true;
    let mut min_size: usize = first.1;
    let mut max_size: usize = first.1;
    let mut i: usize = 1;
    proof {
        assert(probes@.subrange(0, 1).len() == 1);
        assert(probes@.subrange(0, 1)[0] == probes@[0]);
    }
    while i < probes.len()
        invariant
            1 <= i <= probes@.len(),
            consistent == codes_consistent(probes@.subrange(0, i as int)),
            min_size == probes_min_size(probes@.subrange(0, i as int)),
            max_size == probes_max_size(probes@.subrange(0, i as int)),
        decreases probes@.len() - i,
    {
        let p = probes[i];
        proof {
            assert(probes@.subrange(0, i + 1).drop_last() =~= probes@.subrange(0, i as int));
            assert(probes@.subrange(0, i + 1).last() == probes@[i as int]);
            assert(probes@.subrange(0, i + 1)[0] == probes@[0]);
        }
        if p.0 != probes[0].0 {
            consistent = false;
        }
        proof {
            let ext = probes@.subrange(0, i + 1);
            assert(codes_consistent(ext) <==> (codes_consistent(probes@.subrange(0, i as int))
                && probes@[i as int].0 == probes@[0].0)) by {
                if codes_consistent(probes@.subrange(0, i as int)) && probes@[i as int].0
                    == probes@[0].0 {
                    assert forall|k: int| 0 <= k < ext.len() implies (#[trigger] ext[k]).0
                        == ext[0].0 by {
                        if k < i {
                            assert(probes@.subrange(0, i as int)[k] == probes@[k]);
                        }
                    }
                } else if codes_consistent(ext) {
                    assert forall|k: int|
                        0 <= k < i implies (#[trigger] probes@.subrange(0, i as int)[k]).0
                        == probes@.subrange(0, i as int)[0].0 by {
                        assert(ext[k] == probes@[k]);
                    }
                    assert(ext[i as int].0 == ext[0].0);
                }
            }
        }
        if p.1 < min_size {
            min_size = p.1;
        }
        if p.1 > max_size {
            max_size = p.1;
        }
        i = i + 1;
    }
    proof {
        assert(probes@.subrange(0, probes@.len() as int) =~= probes@);
    }
    let reliable = consistent && max_size - min_size <= CALIBRATION_SIZE_TOLERANCE;
    if reliable {
        ValidatorProfile { code: first.0, min_size, max_size, reliable: true }
    } else {
        ValidatorProfile { code: 0, min_size: 0, max_size: 0, reliable: false }
    }
}

/// The sentinel a worker sends to the scheduler once its generator is
/// exhausted.
pub fn end_directory_info() -> (r: DirectoryInfo)
    ensures
        r.url@ == "data:END"@,
        r.parent_index == 0,
        r.parent_depth == 0,
        r.validator is None,
{
    DirectoryInfo {
        url: "data:END".to_owned(),
        parent_index: 0,
        parent_depth: 0,
        validator: None,
    }
}

} // verus!
