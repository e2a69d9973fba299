use dirble::output_format::{output_indentation, output_letter, output_suffix, output_url};
use dirble::request::RequestResponse;

fn generate_request_response() -> RequestResponse {
    // A RequestResponse with sane defaults to simplify the routines.
    RequestResponse {
        url: "http://example.com/".to_string(),
        code: 200,
        content_len: 350,
        is_directory: false,
        is_listable: false,
        found_from_listable: false,
        redirect_url: "https://example.org".to_string(),
        parent_index: 0,
        parent_depth: 0,
    }
}

#[test]
fn check_output_indentation() {
    // output_indentation produces a number of spaces based on the
    // parent_depth field and the number of slashes in the url:
    //   * Indentation disabled: empty String
    //   * Two spaces for each level below the parent directory
    //   * A preceding newline if print_newlines is set and the entry
    //     is a directory

    // Indentation disabled
    let mut req_response = generate_request_response();
    assert_eq!(
        output_indentation(&req_response, false, false),
        "",
        "Disabling of indentation does not stop the indentation"
    );

    // Preceding newline, indentation disabled to force early return
    req_response.is_directory = true;
    assert_eq!(
        output_indentation(&req_response, true, false),
        "\n",
        "Newline is not printed"
    );

    // Default indentation of zero spaces for base URL
    assert_eq!(
        output_indentation(&req_response, false, true),
        "  ", // two spaces
        "Default empty indentation not returned"
    );

    // Indentation of four levels for a file three directories deep
    req_response.is_directory = false;
    req_response.url = "http://example.com/a/test/directory".to_string();
    assert_eq!(
        output_indentation(&req_response, false, true),
        "        ", // eight spaces
        "Indentation of nested directories incorrect"
    );

    // Same scenario, but with a trailing slash
    req_response.url = "http://example.com/a/test/directory/".to_string();
    assert_eq!(
        output_indentation(&req_response, false, true),
        "        ", // eight spaces
        "Trailing slash is not taken into account"
    );
}

#[test]
fn check_output_letter() {
    // Check that:
    // * directory && listable -> L
    // * directory && !listable -> D
    // * found from listable -> ~
    // * otherwise -> +
    // (all with trailing space)
    let mut req_response = generate_request_response();
    req_response.is_directory = true;
    req_response.is_listable = true;
    assert_eq!(
        output_letter(&req_response),
        "L ",
        "Listable directory prefix incorrect"
    );

    req_response.is_listable = false;
    assert_eq!(
        output_letter(&req_response),
        "D ",
        "Directory prefix incorrect"
    );

    req_response.is_directory = false;
    req_response.found_from_listable = true;
    assert_eq!(
        output_letter(&req_response),
        "~ ",
        "Found from listable prefix incorrect"
    );

    req_response.found_from_listable = false;
    assert_eq!(
        output_letter(&req_response),
        "+ ",
        "Regular file prefix incorrect"
    );
}

#[test]
fn check_output_url() {
    // output_url simply returns the url, but with a space at the end
    let req_response = generate_request_response();
    assert_eq!(
        output_url(&req_response),
        format!("{} ", req_response.url),
        "Output URL formatted incorrectly"
    );
}

#[test]
fn check_output_suffix() {
    // output_suffix takes a response and returns a string of the
    // format (CODE:{}|SIZE:{}), with the redirect destination appended
    // for a 301/302.
    let mut req_response = generate_request_response();
    req_response.content_len = 456;
    req_response.code = 201;
    assert_eq!(
        output_suffix(&req_response),
        "(CODE:201|SIZE:456)",
        "Output suffix for code 201 invalid"
    );

    req_response.code = 304;
    assert_eq!(
        output_suffix(&req_response),
        "(CODE:304|SIZE:456)",
        "Output suffix for code 304 invalid"
    );

    // Test that the redirect URL is included
    req_response.code = 301;
    req_response.redirect_url = "https://nccgroup.com".to_string();
    assert_eq!(
        output_suffix(&req_response),
        "(CODE:301|SIZE:456|DEST:https://nccgroup.com)",
        "Output suffix for code 301 invalid"
    );

    req_response.code = 451;
    assert_eq!(
        output_suffix(&req_response),
        "(CODE:451|SIZE:456)",
        "Output suffix for code 451 invalid"
    );

    req_response.code = 503;
    assert_eq!(
        output_suffix(&req_response),
        "(CODE:503|SIZE:456)",
        "Output suffix for code 503 invalid"
    );
}

#[test]
fn suffix_scenarios() {
    // The documented suffix examples, plus a scraped entry and a
    // many-digit code and size.
    let mut r = generate_request_response();
    r.code = 301;
    r.content_len = 456;
    r.redirect_url = "https://n.com".to_string();
    assert_eq!(output_suffix(&r), "(CODE:301|SIZE:456|DEST:https://n.com)");

    r.code = 302;
    assert_eq!(output_suffix(&r), "(CODE:302|SIZE:456|DEST:https://n.com)");

    r.code = 4294967295;
    r.content_len = 0;
    assert_eq!(output_suffix(&r), "(CODE:4294967295|SIZE:0)");

    r.found_from_listable = true;
    assert_eq!(output_suffix(&r), "(SCRAPED)");
}

#[test]
fn depth_formula() {
    // Depth is the slash count, less one for a trailing slash, less
    // the parent depth, less one; a trailing slash never changes it.
    let mut r = generate_request_response();
    r.url = "http://h/a/b/c".to_string();
    r.parent_depth = 1;
    let without_slash = r.get_depth();

    r.url = "http://h/a/b/c/".to_string();
    let with_slash = r.get_depth();

    assert_eq!(without_slash, 3);
    assert_eq!(with_slash, without_slash);

    // A host's root entry sits at depth zero: its parent depth is its
    // own path-segment count.
    r.url = "http://h/".to_string();
    r.parent_depth = 1;
    assert_eq!(r.get_depth(), 0);
}
