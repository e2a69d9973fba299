//! The output sink's formatting contract: classification letter,
//! indentation, and the response suffix. Colouring is presentation and
//! is left to the caller.

use vstd::prelude::*;
use vstd::string::*;
use crate::request::RequestResponse;
use crate::text::{spec_dec, u64_to_string};

verus! {

/// Two spaces per level.
pub open spec fn indent_chars(n: int) -> Seq<char>
    decreases n,
{
    if n <= 0 {
        Seq::<char>::empty()
    } else {
        indent_chars(n - 1) + "  "@
    }
}

/// The indentation block printed before an entry: a newline for a
/// directory when newlines are requested, then two spaces per level of
/// depth below the parent directory.
pub open spec fn spec_output_indentation(
    resp: RequestResponse,
    print_newlines: bool,
    indentation: bool,
) -> Seq<char> {
    let nl = if resp.is_directory && print_newlines {
        "\n"@
    } else {
        Seq::<char>::empty()
    };
    if !indentation {
        nl
    } else if resp.spec_depth() <= 0 {
        nl
    } else {
        nl + indent_chars(resp.spec_depth())
    }
}

/// Builds the indentation block for one entry.
pub fn output_indentation(response: &RequestResponse, print_newlines: bool, indentation: bool) -> (r:
    String)
    requires
        response.url@.len() < 0x8000_0000,
        response.parent_depth < 0x8000_0000,
    ensures
        r@ == spec_output_indentation(*response, print_newlines, indentation),
{
    let mut out: String = if response.is_directory && print_newlines {
        "\n".to_owned()
    } else {
        String::new()
    };
    if !indentation {
        return out;
    }
    let depth = response.get_depth();
    if depth <= 0 {
        return out;
    }
    let ghost nl = out@;
    let mut i: i32 = 0;
    while i < depth
        invariant
            0 <= i <= depth,
            out@ == nl + indent_chars(i as int),
        decreases depth - i,
    {
        out.append("  ");
        proof {
            assert(nl + indent_chars(i + 1) =~= (nl + indent_chars(i as int)) + "  "@);
        }
        i = i + 1;
    }
    out
}

/// The classification letter: `L ` for a listable directory, `D ` for a
/// directory, `~ ` for a scraped entry, `+ ` otherwise.
pub open spec fn spec_output_letter(resp: RequestResponse) -> Seq<char> {
    if resp.is_directory && resp.is_listable {
        "L "@
    } else if resp.is_directory {
        "D "@
    } else if resp.found_from_listable {
        "~ "@
    } else {
        "+ "@
    }
}

/// Picks the classification letter for one entry.
pub fn output_letter(response: &RequestResponse) -> (r: String)
    ensures
        r@ == spec_output_letter(*response),
{
    if response.is_directory && response.is_listable {
        "L ".to_owned()
    } else if response.is_directory {
        "D ".to_owned()
    } else if response.found_from_listable {
        "~ ".to_owned()
    } else {
        "+ ".to_owned()
    }
}

/// The URL followed by a single space.
pub fn output_url(response: &RequestResponse) -> (r: String)
    ensures
        r@ == response.url@ + " "@,
{
    response.url.clone().concat(" ")
}

/// The response suffix: `(SCRAPED)` for a scraped entry, else the code
/// and size, with the redirect destination appended for a 301/302.
pub open spec fn spec_output_suffix(resp: RequestResponse) -> Seq<char> {
    if resp.found_from_listable {
        "(SCRAPED)"@
    } else if resp.code == 301 || resp.code == 302 {
        "(CODE:"@ + spec_dec(resp.code as int) + "|SIZE:"@ + spec_dec(resp.content_len as int)
            + "|DEST:"@ + resp.redirect_url@ + ")"@
    } else {
        "(CODE:"@ + spec_dec(resp.code as int) + "|SIZE:"@ + spec_dec(resp.content_len as int)
            + ")"@
    }
}

/// Formats the suffix for one entry.
pub fn output_suffix(response: &RequestResponse) -> (r: String)
    ensures
        r@ == spec_output_suffix(*response),
{
    if response.found_from_listable {
        return "(SCRAPED)".to_owned();
    }
    let mut out: String = "(CODE:".to_owned();
    let code_str = u64_to_string(response.code as u64);
    out.append(code_str.as_str());
    out.append("|SIZE:");
    let size_str = u64_to_string(response.content_len as u64);
    out.append(size_str.as_str());
    if response.code == 301 || response.code == 302 {
        out.append("|DEST:");
        out.append(response.redirect_url.as_str());
        out.append(")");
        proof {
            assert(out@ =~= spec_output_suffix(*response));
        }
    } else {
        out.append(")");
        proof {
            assert(out@ =~= spec_output_suffix(*response));
        }
    }
    out
}

} // verus!
