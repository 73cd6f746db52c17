use vstd::prelude::*;
use vstd::string::StrSliceExecFns;
use vstd::string::StringExecFns;

use crate::cgi::CgiEnvironment;
use crate::text::string_from_chars;

verus! {

/// Parser states of the request line, in the order they are passed
/// through: `GET /foo/bar?x=1 HTTP/1.0` walks all four, and a line with no
/// `?` skips `QueryString`.
#[derive(Clone, Copy, Debug, PartialEq, Eq, Structural)]
pub enum ReqState {
    Method,
    PathInfo,
    QueryString,
    Protocol,
}

/// A point in the run of the request-line automaton: the current state and
/// the four tokens accumulated so far.
pub ghost struct ReqRun {
    pub state: ReqState,
    pub method: Seq<char>,
    pub path_info: Seq<char>,
    pub query_string: Seq<char>,
    pub protocol: Seq<char>,
}

pub open spec fn req_init() -> ReqRun {
    ReqRun {
        state: ReqState::Method,
        method: Seq::empty(),
        path_info: Seq::empty(),
        query_string: Seq::empty(),
        protocol: Seq::empty(),
    }
}

/// One transition of the request-line automaton on character `c`: a space
/// ends the current token (`?` ends the path and opens the query string),
/// and every character of the protocol tail is kept.
pub open spec fn req_step(r: ReqRun, c: char) -> ReqRun {
    match r.state {
        ReqState::Method => if c == ' ' {
            ReqRun { state: ReqState::PathInfo, ..r }
        } else {
            ReqRun { method: r.method.push(c), ..r }
        },
        ReqState::PathInfo => if c == '?' {
            ReqRun { state: ReqState::QueryString, ..r }
        } else if c == ' ' {
            ReqRun { state: ReqState::Protocol, ..r }
        } else {
            ReqRun { path_info: r.path_info.push(c), ..r }
        },
        ReqState::QueryString => if c == ' ' {
            ReqRun { state: ReqState::Protocol, ..r }
        } else {
            ReqRun { query_string: r.query_string.push(c), ..r }
        },
        ReqState::Protocol => ReqRun { protocol: r.protocol.push(c), ..r },
    }
}

/// The run of the request-line automaton over a whole line.
pub open spec fn req_run(s: Seq<char>) -> ReqRun
    decreases s.len(),
{
    if s.len() == 0 {
        req_init()
    } else {
        req_step(req_run(s.drop_last()), s.last())
    }
}

proof fn lemma_req_method_shape(m: Seq<char>)
    requires
        forall|i: int| 0 <= i < m.len() ==> m[i] != ' ',
    ensures
        req_run(m) == (ReqRun { state: ReqState::Method, method: m, ..req_init() }),
    decreases m.len(),
{
    if m.len() > 0 {
        lemma_req_method_shape(m.drop_last());
        assert(m.drop_last().push(m.last()) =~= m);
    } else {
        assert(m =~= Seq::<char>::empty());
    }
}

proof fn lemma_req_path_extend(a: Seq<char>, p: Seq<char>)
    requires
        req_run(a).state == ReqState::PathInfo,
        forall|i: int| 0 <= i < p.len() ==> p[i] != ' ' && p[i] != '?',
    ensures
        req_run(a + p).state == req_run(a).state,
        req_run(a + p).method == req_run(a).method,
        req_run(a + p).path_info == req_run(a).path_info + p,
        req_run(a + p).query_string == req_run(a).query_string,
        req_run(a + p).protocol == req_run(a).protocol,
    decreases p.len(),
{
    if p.len() == 0 {
        assert(a + p =~= a);
        assert(req_run(a).path_info + p =~= req_run(a).path_info);
    } else {
        let shorter = p.drop_last();
        lemma_req_path_extend(a, shorter);
        assert((a + p).drop_last() =~= a + shorter);
        assert((a + p).last() == p.last());
        assert(req_run(a).path_info + shorter + seq![p.last()] =~= req_run(a).path_info + p);
    }
}

proof fn lemma_req_query_extend(a: Seq<char>, q: Seq<char>)
    requires
        req_run(a).state == ReqState::QueryString,
        forall|i: int| 0 <= i < q.len() ==> q[i] != ' ',
    ensures
        req_run(a + q).state == req_run(a).state,
        req_run(a + q).method == req_run(a).method,
        req_run(a + q).path_info == req_run(a).path_info,
        req_run(a + q).query_string == req_run(a).query_string + q,
        req_run(a + q).protocol == req_run(a).protocol,
    decreases q.len(),
{
    if q.len() == 0 {
        assert(a + q =~= a);
        assert(req_run(a).query_string + q =~= req_run(a).query_string);
    } else {
        let shorter = q.drop_last();
        lemma_req_query_extend(a, shorter);
        assert((a + q).drop_last() =~= a + shorter);
        assert((a + q).last() == q.last());
        assert(req_run(a).query_string + shorter + seq![q.last()] =~= req_run(a).query_string + q);
    }
}

proof fn lemma_req_protocol_extend(a: Seq<char>, t: Seq<char>)
    requires
        req_run(a).state == ReqState::Protocol,
    ensures
        req_run(a + t).state == req_run(a).state,
        req_run(a + t).method == req_run(a).method,
        req_run(a + t).path_info == req_run(a).path_info,
        req_run(a + t).query_string == req_run(a).query_string,
        req_run(a + t).protocol == req_run(a).protocol + t,
    decreases t.len(),
{
    if t.len() == 0 {
        assert(a + t =~= a);
        assert(req_run(a).protocol + t =~= req_run(a).protocol);
    } else {
        let shorter = t.drop_last();
        lemma_req_protocol_extend(a, shorter);
        assert((a + t).drop_last() =~= a + shorter);
        assert((a + t).last() == t.last());
        assert(req_run(a).protocol + shorter + seq![t.last()] =~= req_run(a).protocol + t);
    }
}

/// A request line `M P?Q T` — a method free of spaces, a path free of
/// spaces and question marks, a query free of spaces, then the protocol
/// tail, kept verbatim — parses into exactly those four tokens.
pub proof fn lemma_request_line_with_query(m: Seq<char>, p: Seq<char>, q: Seq<char>, t: Seq<char>)
    requires
        forall|i: int| 0 <= i < m.len() ==> m[i] != ' ',
        forall|i: int| 0 <= i < p.len() ==> p[i] != ' ' && p[i] != '?',
        forall|i: int| 0 <= i < q.len() ==> q[i] != ' ',
    ensures
        ({
            let h = req_run(m + seq![' '] + p + seq!['?'] + q + seq![' '] + t);
            h.method == m && h.path_info == p && h.query_string == q && h.protocol == t
        }),
{
    lemma_req_method_shape(m);
    let a1 = m + seq![' '];
    assert(a1.drop_last() =~= m);
    let a2 = a1 + p;
    lemma_req_path_extend(a1, p);
    assert(req_run(a1).path_info + p =~= p);
    let a3 = a2 + seq!['?'];
    assert(a3.drop_last() =~= a2);
    let a4 = a3 + q;
    lemma_req_query_extend(a3, q);
    assert(req_run(a3).query_string + q =~= q);
    let a5 = a4 + seq![' '];
    assert(a5.drop_last() =~= a4);
    let a6 = a5 + t;
    lemma_req_protocol_extend(a5, t);
    assert(req_run(a5).protocol + t =~= t);
    assert(m + seq![' '] + p + seq!['?'] + q + seq![' '] + t =~= a6);
}

/// A request line `M P T` with no question mark in the path parses into
/// those tokens with an empty query string.
pub proof fn lemma_request_line_without_query(m: Seq<char>, p: Seq<char>, t: Seq<char>)
    requires
        forall|i: int| 0 <= i < m.len() ==> m[i] != ' ',
        forall|i: int| 0 <= i < p.len() ==> p[i] != ' ' && p[i] != '?',
    ensures
        ({
            let h = req_run(m + seq![' '] + p + seq![' '] + t);
            h.method == m && h.path_info == p && h.query_string == Seq::<char>::empty()
                && h.protocol == t
        }),
{
    lemma_req_method_shape(m);
    let a1 = m + seq![' '];
    assert(a1.drop_last() =~= m);
    let a2 = a1 + p;
    lemma_req_path_extend(a1, p);
    assert(req_run(a1).path_info + p =~= p);
    let a3 = a2 + seq![' '];
    assert(a3.drop_last() =~= a2);
    let a4 = a3 + t;
    lemma_req_protocol_extend(a3, t);
    assert(req_run(a3).protocol + t =~= t);
    assert(m + seq![' '] + p + seq![' '] + t =~= a4);
}

/// The four tokens of the first input line. A malformed line is not an
/// error here: a missing separator only leaves the later tokens empty.
pub struct RequestLine {
    pub method: String,
    pub path_info: String,
    pub query_string: String,
    pub protocol: String,
}

/// Parse the request line (given without its terminator) by the four-state
/// automaton of `req_run`.
pub fn parse_request_line(line: &str) -> (r: RequestLine)
    ensures
        r.method@ == req_run(line@).method,
        r.path_info@ == req_run(line@).path_info,
        r.query_string@ == req_run(line@).query_string,
        r.protocol@ == req_run(line@).protocol,
{
    let n = line.unicode_len();
    let mut method: Vec<char> = Vec::new();
    let mut path_info: Vec<char> = Vec::new();
    let mut query_string: Vec<char> = Vec::new();
    let mut protocol: Vec<char> = Vec::new();
    let mut state = ReqState::Method;
    let mut i: usize = 0;
    while i < n
        invariant
            i <= n,
            n == line@.len(),
            state == req_run(line@.take(i as int)).state,
            method@ == req_run(line@.take(i as int)).method,
            path_info@ == req_run(line@.take(i as int)).path_info,
            query_string@ == req_run(line@.take(i as int)).query_string,
            protocol@ == req_run(line@.take(i as int)).protocol,
        decreases n - i,
    {
        let c = line.get_char(i);
        proof {
            assert(line@.take(i + 1).drop_last() =~= line@.take(i as int));
            assert(line@.take(i + 1).last() == line@[i as int]);
        }
        match state {
            ReqState::Method => {
                if c == ' ' {
                    state = ReqState::PathInfo;
                } else {
                    method.push(c);
                }
            },
            ReqState::PathInfo => {
                if c == '?' {
                    state = ReqState::QueryString;
                } else if c == ' ' {
                    state = ReqState::Protocol;
                } else {
                    path_info.push(c);
                }
            },
            ReqState::QueryString => {
                if c == ' ' {
                    state = ReqState::Protocol;
                } else {
                    query_string.push(c);
                }
            },
            ReqState::Protocol => {
                protocol.push(c);
            },
        }
        i += 1;
    }
    proof {
        assert(line@.take(n as int) =~= line@);
    }
    RequestLine {
        method: string_from_chars(&method),
        path_info: string_from_chars(&path_info),
        query_string: string_from_chars(&query_string),
        protocol: string_from_chars(&protocol),
    }
}

/// Parse the request line and write its mapping into the environment:
/// `REQUEST_METHOD`, `PATH_INFO`, `QUERY_STRING` and `SERVER_PROTOCOL` take
/// the four tokens; `SCRIPT_NAME` is always empty (the whole path is
/// treated as path info) and `REQUEST_URI` is the fixed placeholder.
pub fn set_request(line: &str, env: &mut CgiEnvironment)
    requires
        old(env).wf(),
    ensures
        final(env).wf(),
        final(env).as_map() == old(env).as_map()
            .insert("REQUEST_METHOD"@, req_run(line@).method)
            .insert("SCRIPT_NAME"@, ""@)
            .insert("PATH_INFO"@, req_run(line@).path_info)
            .insert("QUERY_STRING"@, req_run(line@).query_string)
            .insert("REQUEST_URI"@, "/cgi-bin/app.cgi"@)
            .insert("SERVER_PROTOCOL"@, req_run(line@).protocol),
{
    let parsed = parse_request_line(line);
    env.set(String::from_str("REQUEST_METHOD"), parsed.method);
    env.set(String::from_str("SCRIPT_NAME"), String::from_str(""));
    env.set(String::from_str("PATH_INFO"), parsed.path_info);
    env.set(String::from_str("QUERY_STRING"), parsed.query_string);
    env.set(String::from_str("REQUEST_URI"), String::from_str("/cgi-bin/app.cgi"));
    env.set(String::from_str("SERVER_PROTOCOL"), parsed.protocol);
}

} // verus!
