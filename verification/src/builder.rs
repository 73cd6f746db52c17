use vstd::prelude::*;

use crate::cgi::CgiEnvironment;
use crate::cgi::base_environment;
use crate::error::HttpError;
use crate::header::canonical_key;
use crate::header::hdr_run;
use crate::header::lemma_special_keys_distinct;
use crate::header::parses_as_usize;
use crate::header::set_header;
use crate::header::usize_val;
use crate::request::req_run;
use crate::request::set_request;

verus! {

/// The environment right after the fixed server-identity entries and the
/// request line, before any header has been seen.
pub open spec fn initial_map(
    request_line: Seq<char>,
    local_ip: Option<String>,
    local_port: Option<String>,
) -> Map<Seq<char>, Seq<char>> {
    Map::<Seq<char>, Seq<char>>::empty()
        .insert("GATEWAY_INTERFACE"@, "CGI/1.1"@)
        .insert("SERVER_SOFTWARE"@, "cgid/0.1.0"@)
        .insert("SERVER_NAME"@, match local_ip { Some(ip) => ip@, None => "127.0.0.1"@ })
        .insert("SERVER_PORT"@, match local_port { Some(p) => p@, None => "80"@ })
        .insert("REQUEST_METHOD"@, req_run(request_line).method)
        .insert("SCRIPT_NAME"@, ""@)
        .insert("PATH_INFO"@, req_run(request_line).path_info)
        .insert("QUERY_STRING"@, req_run(request_line).query_string)
        .insert("REQUEST_URI"@, "/cgi-bin/app.cgi"@)
        .insert("SERVER_PROTOCOL"@, req_run(request_line).protocol)
}

/// What one header line does to the environment and the captured length:
/// its canonical entry and possibly a new declared length, or nothing at
/// all when the line is malformed.
pub open spec fn header_outcome(
    m: Map<Seq<char>, Seq<char>>,
    cl: int,
    line: Seq<char>,
) -> Option<(Map<Seq<char>, Seq<char>>, int)> {
    let h = hdr_run(line);
    let ck = canonical_key(h.key);
    if !h.valid {
        None
    } else if ck == "HTTP_CONTENT_TYPE"@ {
        Some((m.insert("CONTENT_TYPE"@, h.value), cl))
    } else if ck == "HTTP_CONTENT_LENGTH"@ {
        if parses_as_usize(h.value) {
            Some((m.insert("CONTENT_LENGTH"@, h.value), usize_val(h.value)))
        } else {
            None
        }
    } else {
        Some((m.insert(ck, h.value), cl))
    }
}

/// The header lines folded over the environment in order, aborting at the
/// first malformed line.
pub open spec fn headers_outcome(
    m: Map<Seq<char>, Seq<char>>,
    cl: int,
    lines: Seq<Seq<char>>,
) -> Option<(Map<Seq<char>, Seq<char>>, int)>
    decreases lines.len(),
{
    if lines.len() == 0 {
        Some((m, cl))
    } else {
        match header_outcome(m, cl, lines[0]) {
            None => None,
            Some(next) => headers_outcome(next.0, next.1, lines.skip(1)),
        }
    }
}

/// Build the whole CGI environment of one request: the fixed entries with
/// the ambient address and port (or their fallbacks), the request-line
/// entries, then one canonical entry per header line, in order, together
/// with the declared body length (zero when no `Content-Length` header
/// appeared). The first malformed header aborts the build with nothing
/// handed out, so no child is ever launched with a partial environment.
pub fn build_environment(
    request_line: &str,
    header_lines: &Vec<String>,
    local_ip: Option<String>,
    local_port: Option<String>,
) -> (r: Result<(CgiEnvironment, usize), HttpError>)
    ensures
        ({
            let outcome = headers_outcome(
                initial_map(request_line@, local_ip, local_port),
                0,
                header_lines.deep_view(),
            );
            match r {
                Ok(built) => outcome == Some((built.0.as_map(), built.1 as int)) && built.0.wf(),
                Err(e) => outcome is None && e == HttpError::MalformedHeader,
            }
        }),
{
    let mut env = base_environment(local_ip, local_port);
    set_request(request_line, &mut env);
    let mut content_length: usize = 0;
    let ghost all_lines = header_lines.deep_view();
    proof {
        assert(all_lines.skip(0) =~= all_lines);
        assert(env.as_map() == initial_map(request_line@, local_ip, local_port));
    }
    let n = header_lines.len();
    let mut i: usize = 0;
    while i < n
        invariant
            i <= n,
            n == header_lines@.len(),
            all_lines == header_lines.deep_view(),
            env.wf(),
            headers_outcome(initial_map(request_line@, local_ip, local_port), 0, all_lines)
                == headers_outcome(env.as_map(), content_length as int, all_lines.skip(i as int)),
        decreases n - i,
    {
        proof {
            assert(all_lines[i as int] == header_lines@[i as int]@);
            assert(all_lines.skip(i as int)[0] == all_lines[i as int]);
            assert(all_lines.skip(i as int).skip(1) =~= all_lines.skip(i + 1));
        }
        let ghost pre_m = env.as_map();
        let ghost pre_cl = content_length as int;
        match set_header(header_lines[i].as_str(), &mut env, &mut content_length) {
            Ok(()) => {
                proof {
                    lemma_special_keys_distinct();
                    assert(header_outcome(pre_m, pre_cl, all_lines[i as int]) == Some(
                        (env.as_map(), content_length as int),
                    ));
                }
            },
            Err(e) => {
                proof {
                    lemma_special_keys_distinct();
                    let h = hdr_run(all_lines[i as int]);
                    let ck = canonical_key(h.key);
                    assert(!(h.valid && (ck == "HTTP_CONTENT_LENGTH"@ ==> parses_as_usize(
                        h.value,
                    ))));
                    if h.valid {
                        assert(ck == "HTTP_CONTENT_LENGTH"@ && !parses_as_usize(h.value));
                    }
                    assert(header_outcome(pre_m, pre_cl, all_lines[i as int]) is None);
                }
                return Err(e);
            },
        }
        i += 1;
    }
    proof {
        assert(all_lines.skip(n as int) =~= Seq::<Seq<char>>::empty());
    }
    Ok((env, content_length))
}

} // verus!
