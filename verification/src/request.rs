//! The response record passed between the pipeline stages, the
//! classification of raw HTTP responses, and the decisions of the
//! listable-directory routine.

use vstd::prelude::*;
use vstd::string::*;
use crate::text::{
    contains_str, contains_sub, count_char, count_matching, ends_with_char, lemma_count_le_len,
    str_eq,
};
use crate::validator::ValidatorProfile;

verus! {

/// Information about one probed or scraped resource.
#[derive(Clone, Debug, PartialEq)]
pub struct RequestResponse {
    /// Absolute URL of the probed resource.
    pub url: String,
    /// HTTP status; 0 for a transport failure or a fabricated entry.
    pub code: u32,
    /// Size in bytes of the body actually received.
    pub content_len: usize,
    /// The resource is believed to be a directory.
    pub is_directory: bool,
    /// The directory exposes an index of its contents.
    pub is_listable: bool,
    /// Destination of a 301/302 response, percent-decoded; else empty.
    pub redirect_url: String,
    /// The entry was scraped from an index page, not probed.
    pub found_from_listable: bool,
    /// Index into the configured host list.
    pub parent_index: usize,
    /// Path-segment count of the directory this probe was launched at.
    pub parent_depth: u32,
}

impl RequestResponse {
    /// Depth used for display indentation: slashes in the URL, less one
    /// for a trailing slash, less the parent depth, less one.
    pub open spec fn spec_depth(&self) -> int {
        count_matching(self.url@, '/') - (if self.url@.len() > 0 && self.url@.last() == '/' {
            1int
        } else {
            0int
        }) - self.parent_depth - 1
    }

    /// Computes the indentation depth of this entry below the directory
    /// it was launched from. Negative for the base entries themselves.
    pub fn get_depth(&self) -> (r: i32)
        requires
            self.url@.len() < 0x8000_0000,
            self.parent_depth < 0x8000_0000,
        ensures
            r as int == self.spec_depth(),
    {
        proof {
            lemma_count_le_len(self.url@, '/');
        }
        let cnt = count_char(self.url.as_str(), '/');
        let mut depth: i64 = cnt as i64;
        if ends_with_char(self.url.as_str(), '/') {
            proof {
                assert(count_matching(self.url@, '/') >= 1);
            }
            depth = depth - 1;
        }
        depth = depth - (self.parent_depth as i64);
        depth = depth - 1;
        depth as i32
    }
}

/// Body bytes accumulated while one HTTP response is received.
pub struct Collector {
    /// The bytes received so far.
    pub contents: Vec<u8>,
}

impl Collector {
    /// An empty collector, ready for the first request.
    pub fn new() -> (r: Collector)
        ensures
            r.contents@ == Seq::<u8>::empty(),
    {
        Collector { contents: Vec::new() }
    }

    /// Discards the previous response's bytes.
    pub fn clear_buffer(&mut self)
        ensures
            final(self).contents@ == Seq::<u8>::empty(),
    {
        self.contents = Vec::new();
    }

    /// Number of bytes received.
    pub fn len(&self) -> (r: usize)
        ensures
            r == self.contents@.len(),
    {
        self.contents.len()
    }

    /// Appends one chunk of the response body.
    pub fn extend_contents(&mut self, data: &[u8])
        ensures
            final(self).contents@ == old(self).contents@ + data@,
    {
        let mut i: usize = 0;
        while i < data.len()
            invariant
                0 <= i <= data@.len(),
                self.contents@ == old(self).contents@ + data@.subrange(0, i as int),
            decreases data@.len() - i,
        {
            self.contents.push(data[i]);
            proof {
                assert(old(self).contents@ + data@.subrange(0, i + 1) =~= (old(
                    self,
                ).contents@ + data@.subrange(0, i as int)).push(data@[i as int]));
            }
            i = i + 1;
        }
        proof {
            assert(data@.subrange(0, data@.len() as int) =~= data@);
        }
    }

}

/// What percent-decoding makes of a string: the decoded text, or none
/// when the decoded bytes are not valid UTF-8.
pub uninterp spec fn percent_decoded(s: Seq<char>) -> Option<Seq<char>>;

/// The string holds a percent sign somewhere.
pub open spec fn has_percent(s: Seq<char>) -> bool {
    exists|i: int| 0 <= i < s.len() && s[i] == '%'
}

/// Relies on `percent_encoding::percent_decode` and
/// `PercentDecode::decode_utf8`: the result is a function of the input
/// alone, and an input without `%` decodes to itself.
#[verifier::external_body]
pub(crate) fn percent_decode_string(s: &str) -> (r: Option<String>)
    ensures
        r matches Some(d) ==> percent_decoded(s@) matches Some(v) && d@ == v,
        r is None ==> percent_decoded(s@) is None,
        r is None || (r matches Some(d) && d@ != s@) ==> has_percent(s@),
{
    match percent_encoding::percent_decode(s.as_bytes()).decode_utf8() {
        Ok(c) => Some(c.to_string()),
        Err(_) => None,
    }
}

/// What `str::to_lowercase` makes of a string: a function of the
/// characters alone.
pub uninterp spec fn lower_of(s: Seq<char>) -> Seq<char>;

/// Relies on `str::to_lowercase`: the result depends on the characters
/// alone.
#[verifier::external_body]
pub(crate) fn lowercase(s: &str) -> (r: String)
    ensures
        r@ == lower_of(s@),
{
    s.to_lowercase()
}

/// A 301/302 points at the probed URL with a trailing slash appended:
/// both sides percent-decode successfully and decode to the same text.
pub open spec fn redirect_confirms_directory(url: Seq<char>, dest: Seq<char>) -> bool {
    &&& percent_decoded(url + "/"@) is Some
    &&& percent_decoded(dest) is Some
    &&& percent_decoded(url + "/"@) == percent_decoded(dest)
}

/// Builds the record for a completed request: keeps the true code and
/// body length, and for a redirect decides whether it confirms a
/// directory and records the decoded destination.
pub fn classify_response(
    url: &String,
    code: u32,
    redirect_dest: &Option<String>,
    content_len: usize,
) -> (r: RequestResponse)
    ensures
        r.url == *url,
        r.code == code,
        r.content_len == content_len,
        !r.is_listable,
        !r.found_from_listable,
        r.parent_index == 0,
        r.parent_depth == 0,
        (code == 301 || code == 302) ==> (match *redirect_dest {
            Some(dest) => {
                &&& r.is_directory == redirect_confirms_directory(url@, dest@)
                &&& (match percent_decoded(dest@) {
                    Some(v) => r.redirect_url@ == v,
                    None => r.redirect_url@ == dest@,
                })
            },
            None => !r.is_directory && r.redirect_url@ == Seq::<char>::empty(),
        }),
        !(code == 301 || code == 302) ==> !r.is_directory && r.redirect_url@ == Seq::<
            char,
        >::empty(),
{
    let mut r = RequestResponse {
        url: url.clone(),
        code,
        content_len,
        is_directory: false,
        is_listable: false,
        redirect_url: String::new(),
        found_from_listable: false,
        parent_index: 0,
        parent_depth: 0,
    };
    if code == 301 || code == 302 {
        if let Some(dest) = redirect_dest {
            let mut dir_url = url.clone();
            dir_url.append("/");
            proof {
                reveal_strlit("/");
            }
            let decoded_dir = percent_decode_string(dir_url.as_str());
            let decoded_dest = percent_decode_string(dest.as_str());
            match decoded_dest {
                Some(d) => {
                    if let Some(du) = &decoded_dir {
                        if str_eq(du.as_str(), d.as_str()) {
                            r.is_directory = true;
                        }
                    }
                    r.redirect_url = d;
                },
                None => {
                    r.redirect_url = dest.clone();
                },
            }
        }
    }
    r
}

/// The record used for a request that failed at the transport level.
pub fn transport_failure_response(url: String) -> (r: RequestResponse)
    ensures
        r.url == url,
        r.code == 0,
        r.content_len == 0,
        !r.is_directory,
        !r.is_listable,
        r.redirect_url@ == Seq::<char>::empty(),
        !r.found_from_listable,
        r.parent_index == 0,
        r.parent_depth == 0,
{
    RequestResponse {
        url,
        code: 0,
        content_len: 0,
        is_directory: false,
        is_listable: false,
        redirect_url: String::new(),
        found_from_listable: false,
        parent_index: 0,
        parent_depth: 0,
    }
}

/// A record for a resource that no request was made for: a scraped or
/// synthesized entry.
pub fn fabricate_request_response(url: String, is_directory: bool, is_listable: bool) -> (r:
    RequestResponse)
    ensures
        r.url == url,
        r.code == 0,
        r.content_len == 0,
        r.is_directory == is_directory,
        r.is_listable == is_listable,
        r.redirect_url@ == Seq::<char>::empty(),
        r.found_from_listable,
        r.parent_index == 0,
        r.parent_depth == 0,
{
    RequestResponse {
        url,
        code: 0,
        content_len: 0,
        is_directory,
        is_listable,
        redirect_url: String::new(),
        found_from_listable: true,
        parent_index: 0,
        parent_depth: 0,
    }
}

/// The sentinel sent to the output sink when the run ends.
pub fn generate_end() -> (r: RequestResponse)
    ensures
        r.url@ == "data:MAIN ENDING"@,
        r.code == 0,
        r.content_len == 0,
        !r.is_directory,
        !r.is_listable,
        r.redirect_url@ == Seq::<char>::empty(),
        !r.found_from_listable,
        r.parent_index == 0,
        r.parent_depth == 0,
{
    RequestResponse {
        url: "data:MAIN ENDING".to_owned(),
        code: 0,
        content_len: 0,
        is_directory: false,
        is_listable: false,
        redirect_url: String::new(),
        found_from_listable: false,
        parent_index: 0,
        parent_depth: 0,
    }
}

/// What a worker does with a classified finding.
#[derive(Clone, Copy, Debug, PartialEq, Eq, Structural)]
pub enum FindingAction {
    /// Matches the host's calibration signature: dropped silently.
    Suppress,
    /// Sent to the output sink only.
    EmitOnly,
    /// Sent to the output sink and forwarded to the validator.
    EmitAndValidate,
}

/// The worker's routing decision for one finding.
pub open spec fn spec_finding_action(
    finding: RequestResponse,
    profile: Option<ValidatorProfile>,
) -> FindingAction {
    if finding.code == 0 {
        FindingAction::EmitOnly
    } else if profile matches Some(p) && p.spec_matches(finding.code, finding.content_len) {
        FindingAction::Suppress
    } else if finding.is_directory {
        FindingAction::EmitAndValidate
    } else {
        FindingAction::EmitOnly
    }
}

/// Decides what a worker does with one finding: a transport failure or
/// fabricated entry goes to the output sink only; a finding matching
/// the host's calibration signature is dropped; a confirmed directory
/// is also forwarded to the validator.
pub fn finding_action(finding: &RequestResponse, profile: &Option<ValidatorProfile>) -> (a:
    FindingAction)
    ensures
        a == spec_finding_action(*finding, *profile),
        a is EmitAndValidate ==> finding.code != 0,
{
    if finding.code == 0 {
        FindingAction::EmitOnly
    } else {
        let suppressed = match profile {
            Some(p) => p.matches_signature(finding.code, finding.content_len),
            None => false,
        };
        if suppressed {
            FindingAction::Suppress
        } else if finding.is_directory {
            FindingAction::EmitAndValidate
        } else {
            FindingAction::EmitOnly
        }
    }
}

/// No finding with code 0 is ever forwarded to the validator: the
/// worker's routing decision never validates a transport failure or a
/// fabricated entry.
pub proof fn lemma_no_transport_failure_validated(
    finding: RequestResponse,
    profile: Option<ValidatorProfile>,
)
    ensures
        finding.code == 0 ==> spec_finding_action(finding, profile) != FindingAction::EmitAndValidate,
{
}

/// The fixed markers whose presence in a lowercased index page marks a
/// directory as listable.
pub open spec fn spec_listable(content_lower: Seq<char>) -> bool {
    ||| contains_sub(content_lower, "parent directory"@)
    ||| contains_sub(content_lower, "up to "@)
    ||| contains_sub(content_lower, "directory listing for"@)
}

/// True when the page content, lowercased, shows one of the fixed
/// directory-listing markers.
pub fn is_listable_content(content: &str) -> (r: bool)
    ensures
        r == spec_listable(lower_of(content@)),
{
    let low = lowercase(content);
    if contains_str(low.as_str(), "parent directory") {
        return true;
    }
    if contains_str(low.as_str(), "up to ") {
        return true;
    }
    contains_str(low.as_str(), "directory listing for")
}

/// Appends a trailing slash when the URL lacks one.
pub fn ensure_trailing_slash(url: &String) -> (r: String)
    ensures
        r@ == if url@.len() > 0 && url@.last() == '/' {
            url@
        } else {
            url@ + "/"@
        },
{
    let mut r = url.clone();
    if !ends_with_char(url.as_str(), '/') {
        r.append("/");
    }
    r
}

/// Depth of a scraped URL relative to the probe's parent directory:
/// slashes in the URL, less one for a trailing slash, less the parent
/// depth.
pub open spec fn spec_scrape_depth(url: Seq<char>, parent_depth: int) -> int {
    count_matching(url, '/') - (if url.len() > 0 && url.last() == '/' {
        1int
    } else {
        0int
    }) - parent_depth
}

/// Whether the listable routine descends into a scraped directory URL:
/// always when no maximum recursion depth is set, else only while the
/// scraped URL's depth does not exceed it.
pub fn scrape_recursion_allowed(url: &String, parent_depth: i32, max_depth: &Option<i32>) -> (r:
    bool)
    requires
        url@.len() < 0x8000_0000,
    ensures
        r == match *max_depth {
            None => true,
            Some(m) => spec_scrape_depth(url@, parent_depth as int) <= m,
        },
{
    match max_depth {
        None => true,
        Some(m) => {
            proof {
                lemma_count_le_len(url@, '/');
            }
            let cnt = count_char(url.as_str(), '/');
            let mut depth: i64 = cnt as i64;
            if ends_with_char(url.as_str(), '/') {
                proof {
                    assert(count_matching(url@, '/') >= 1);
                }
                depth = depth - 1;
            }
            depth = depth - (parent_depth as i64);
            depth <= (*m as i64)
        },
    }
}

} // verus!
