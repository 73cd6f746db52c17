use vstd::prelude::*;
use vstd::string::StrSliceExecFns;
use vstd::string::StringExecFns;

use crate::cgi::CgiEnvironment;
use crate::error::HttpError;
use crate::text::string_from_chars;
use crate::text::str_eq;
use crate::text::upper;
use crate::text::upper_of;

verus! {

/// Parser states of a header line: the name, then the run of spaces right
/// after the colon (spaces only — a tab is not skipped), then the value.
#[derive(Clone, Copy, Debug, PartialEq, Eq, Structural)]
pub enum HdrState {
    Key,
    Whitespace,
    Value,
}

/// A point in the run of the header-line automaton: the current state,
/// whether a colon has been seen, and the name and value gathered so far.
pub ghost struct HdrRun {
    pub state: HdrState,
    pub valid: bool,
    pub key: Seq<char>,
    pub value: Seq<char>,
}

pub open spec fn hdr_init() -> HdrRun {
    HdrRun { state: HdrState::Key, valid: false, key: Seq::empty(), value: Seq::empty() }
}

/// One transition of the header-line automaton on character `c`: the first
/// colon ends the name and marks the line valid, the spaces right after it
/// are discarded, and everything from the first non-space on — further
/// spaces included — is value text, kept verbatim.
pub open spec fn hdr_step(r: HdrRun, c: char) -> HdrRun {
    match r.state {
        HdrState::Key => if c == ':' {
            HdrRun { state: HdrState::Whitespace, valid: true, ..r }
        } else {
            HdrRun { key: r.key.push(c), ..r }
        },
        HdrState::Whitespace => if c == ' ' {
            r
        } else {
            HdrRun { state: HdrState::Value, value: r.value.push(c), ..r }
        },
        HdrState::Value => HdrRun { value: r.value.push(c), ..r },
    }
}

/// The run of the header-line automaton over a whole line (given without
/// its terminator).
pub open spec fn hdr_run(s: Seq<char>) -> HdrRun
    decreases s.len(),
{
    if s.len() == 0 {
        hdr_init()
    } else {
        hdr_step(hdr_run(s.drop_last()), s.last())
    }
}

/// The header name with every `-` turned into `_`.
pub open spec fn underscored(s: Seq<char>) -> Seq<char> {
    Seq::new(s.len(), |i: int| if s[i] == '-' { '_' } else { s[i] })
}

/// The canonical environment key of a header name: `HTTP_`, then the name
/// uppercased with dashes as underscores.
pub open spec fn canonical_key(key: Seq<char>) -> Seq<char> {
    seq!['H', 'T', 'T', 'P', '_'] + underscored(upper_of(key))
}

pub open spec fn is_digit(c: char) -> bool {
    '0' as u32 <= c as u32 && c as u32 <= '9' as u32
}

pub open spec fn digit_val(c: char) -> int {
    c as u32 - '0' as u32
}

/// The number a sequence of decimal digits denotes.
pub open spec fn digits_val(s: Seq<char>) -> int
    decreases s.len(),
{
    if s.len() == 0 {
        0
    } else {
        digits_val(s.drop_last()) * 10 + digit_val(s.last())
    }
}

pub open spec fn all_digits(s: Seq<char>) -> bool {
    forall|i: int| 0 <= i < s.len() ==> is_digit(s[i])
}

/// The digit part of a declared length: the standard library's unsigned
/// parser allows one leading `+` before the digits.
pub open spec fn digit_part(s: Seq<char>) -> Seq<char> {
    if s.len() > 0 && s[0] == '+' {
        s.skip(1)
    } else {
        s
    }
}

/// Whether a declared length is a well-formed non-negative number that
/// fits the machine: at least one digit, digits only, and no overflow.
pub open spec fn parses_as_usize(s: Seq<char>) -> bool {
    &&& digit_part(s).len() > 0
    &&& all_digits(digit_part(s))
    &&& digits_val(digit_part(s)) <= usize::MAX
}

pub open spec fn usize_val(s: Seq<char>) -> int {
    digits_val(digit_part(s))
}

proof fn lemma_digits_val_nonneg(s: Seq<char>)
    requires
        all_digits(s),
    ensures
        digits_val(s) >= 0,
    decreases s.len(),
{
    if s.len() > 0 {
        assert(all_digits(s.drop_last())) by {
            assert(forall|i: int|
                0 <= i < s.len() - 1 ==> s.drop_last()[i] == s[i] && is_digit(s[i]));
        }
        lemma_digits_val_nonneg(s.drop_last());
    }
}

/// Parse a declared `Content-Length` the way the standard library's
/// unsigned parser would: an optional leading `+`, then at least one
/// decimal digit and nothing else, rejecting values that overflow.
pub fn parse_content_length(v: &Vec<char>) -> (r: Option<usize>)
    ensures
        match r {
            Some(n) => parses_as_usize(v@) && n == usize_val(v@),
            None => !parses_as_usize(v@),
        },
{
    let len = v.len();
    let start: usize = if len > 0 && v[0] == '+' {
        1
    } else {
        0
    };
    let ghost d = digit_part(v@);
    proof {
        assert(d =~= v@.skip(start as int));
    }
    if start >= len {
        return None;
    }
    let mut acc: usize = 0;
    let mut i: usize = start;
    while i < len
        invariant
            start <= i <= len,
            len == v@.len(),
            d == digit_part(v@),
            d == v@.skip(start as int),
            d.len() == len - start,
            all_digits(d.take(i - start)),
            acc == digits_val(d.take(i - start)),
        decreases len - i,
    {
        let c = v[i];
        let code = c as u32;
        proof {
            assert(d[i - start] == v@[i as int]);
            assert(d.take(i - start + 1).drop_last() =~= d.take(i - start));
            assert(d.take(i - start + 1).last() == d[i - start]);
        }
        if code < 48 || code > 57 {
            proof {
                assert(!is_digit(v@[i as int]));
                assert(!all_digits(d));
            }
            return None;
        }
        let dgt = (code - 48) as usize;
        let next = match acc.checked_mul(10) {
            Some(m) => m.checked_add(dgt),
            None => None,
        };
        match next {
            Some(n) => {
                acc = n;
            },
            None => {
                proof {
                    assert(digits_val(d.take(i - start + 1)) > usize::MAX);
                    if all_digits(d) {
                        lemma_digits_val_prefix(d, i - start + 1);
                    }
                }
                return None;
            },
        }
        i += 1;
    }
    proof {
        assert(d.take(len - start) =~= d);
    }
    Some(acc)
}

proof fn lemma_digits_val_prefix(s: Seq<char>, j: int)
    requires
        all_digits(s),
        0 <= j <= s.len(),
    ensures
        digits_val(s.take(j)) <= digits_val(s),
    decreases s.len() - j,
{
    if j < s.len() {
        assert(all_digits(s.take(j))) by {
            assert(forall|k: int| 0 <= k < j ==> s.take(j)[k] == s[k] && is_digit(s[k]));
        }
        lemma_digits_val_nonneg(s.take(j));
        assert(s.take(j + 1).drop_last() =~= s.take(j));
        assert(s.take(j + 1).last() == s[j]);
        assert(digits_val(s.take(j + 1)) == digits_val(s.take(j)) * 10 + digit_val(s[j]));
        lemma_digits_val_prefix(s, j + 1);
    } else {
        assert(s.take(j) =~= s);
    }
}

/// Parse one header line and write its canonical entry into the
/// environment.
///
/// A line with no colon is malformed and writes nothing. Otherwise the
/// entry's key is `HTTP_` plus the uppercased name with dashes as
/// underscores — except that a name canonicalizing to `HTTP_CONTENT_TYPE`
/// is stored under `CONTENT_TYPE`, and one canonicalizing to
/// `HTTP_CONTENT_LENGTH` is stored under `CONTENT_LENGTH` and also has its
/// value captured as the declared body length; a declared length that is
/// not a well-formed number is malformed and writes nothing.
pub fn set_header(line: &str, env: &mut CgiEnvironment, content_length: &mut usize) -> (r: Result<
    (),
    HttpError,
>)
    requires
        old(env).wf(),
    ensures
        final(env).wf(),
        ({
            let h = hdr_run(line@);
            let ck = canonical_key(h.key);
            let emap0 = old(env).as_map();
            let emap1 = final(env).as_map();
            let cl0 = *old(content_length);
            let cl1 = *final(content_length);
            &&& (r is Ok <==> h.valid && (ck == "HTTP_CONTENT_LENGTH"@
                ==> parses_as_usize(h.value)))
            &&& (r is Err ==> r == Result::<(), HttpError>::Err(HttpError::MalformedHeader)
                && emap1 == emap0 && cl1 == cl0)
            &&& (r is Ok && ck == "HTTP_CONTENT_TYPE"@
                ==> emap1 == emap0.insert("CONTENT_TYPE"@, h.value) && cl1 == cl0)
            &&& (r is Ok && ck == "HTTP_CONTENT_LENGTH"@
                ==> emap1 == emap0.insert("CONTENT_LENGTH"@, h.value)
                    && cl1 == usize_val(h.value))
            &&& (r is Ok && ck != "HTTP_CONTENT_TYPE"@ && ck != "HTTP_CONTENT_LENGTH"@
                ==> emap1 == emap0.insert(ck, h.value) && cl1 == cl0)
        }),
{
    let n = line.unicode_len();
    let mut key: Vec<char> = Vec::new();
    let mut value: Vec<char> = Vec::new();
    let mut state = HdrState::Key;
    let mut valid = false;
    let mut i: usize = 0;
    while i < n
        invariant
            i <= n,
            n == line@.len(),
            state == hdr_run(line@.take(i as int)).state,
            valid == hdr_run(line@.take(i as int)).valid,
            key@ == hdr_run(line@.take(i as int)).key,
            value@ == hdr_run(line@.take(i as int)).value,
        decreases n - i,
    {
        let c = line.get_char(i);
        proof {
            assert(line@.take(i + 1).drop_last() =~= line@.take(i as int));
            assert(line@.take(i + 1).last() == line@[i as int]);
        }
        match state {
            HdrState::Key => {
                if c == ':' {
                    valid = true;
                    state = HdrState::Whitespace;
                } else {
                    key.push(c);
                }
            },
            HdrState::Whitespace => {
                if c != ' ' {
                    value.push(c);
                    state = HdrState::Value;
                }
            },
            HdrState::Value => {
                value.push(c);
            },
        }
        i += 1;
    }
    proof {
        assert(line@.take(n as int) =~= line@);
    }
    if !valid {
        return Err(HttpError::MalformedHeader);
    }
    let key_str = string_from_chars(&key);
    let upper_key = upper(key_str.as_str());
    let up = upper_key.as_str();
    let un = up.unicode_len();
    let mut env_key: Vec<char> = Vec::new();
    env_key.push('H');
    env_key.push('T');
    env_key.push('T');
    env_key.push('P');
    env_key.push('_');
    let mut j: usize = 0;
    while j < un
        invariant
            j <= un,
            un == up@.len(),
            up@ == upper_of(hdr_run(line@).key),
            env_key@.len() == 5 + j,
            env_key@.take(5) =~= seq!['H', 'T', 'T', 'P', '_'],
            forall|k: int|
                0 <= k < j ==> env_key@[5 + k] == (if up@[k] == '-' {
                    '_'
                } else {
                    up@[k]
                }),
        decreases un - j,
    {
        let c = up.get_char(j);
        if c == '-' {
            env_key.push('_');
        } else {
            env_key.push(c);
        }
        j += 1;
    }
    proof {
        assert(env_key@ =~= canonical_key(hdr_run(line@).key));
    }
    let env_key_str = string_from_chars(&env_key);
    let value_str = string_from_chars(&value);
    if str_eq(env_key_str.as_str(), "HTTP_CONTENT_TYPE") {
        proof {
            lemma_special_keys_distinct();
        }
        env.set(String::from_str("CONTENT_TYPE"), value_str);
        Ok(())
    } else if str_eq(env_key_str.as_str(), "HTTP_CONTENT_LENGTH") {
        match parse_content_length(&value) {
            Some(parsed) => {
                *content_length = parsed;
                env.set(String::from_str("CONTENT_LENGTH"), value_str);
                Ok(())
            },
            None => Err(HttpError::MalformedHeader),
        }
    } else {
        env.set(env_key_str, value_str);
        Ok(())
    }
}

/// A character sequence less its leading spaces.
pub open spec fn strip_spaces(s: Seq<char>) -> Seq<char>
    decreases s.len(),
{
    if s.len() > 0 && s[0] == ' ' {
        strip_spaces(s.skip(1))
    } else {
        s
    }
}

proof fn lemma_strip_spaces_push(x: Seq<char>, c: char)
    ensures
        strip_spaces(x.push(c)) == (if strip_spaces(x).len() > 0 {
            strip_spaces(x).push(c)
        } else if c == ' ' {
            Seq::<char>::empty()
        } else {
            seq![c]
        }),
    decreases x.len(),
{
    if x.len() == 0 {
        assert(x.push(c) =~= seq![c]);
        assert(strip_spaces(Seq::<char>::empty()) == Seq::<char>::empty());
        if c == ' ' {
            assert(seq![c].skip(1) =~= Seq::<char>::empty());
            assert(seq![c][0] == ' ');
            assert(strip_spaces(seq![c]) == strip_spaces(seq![c].skip(1)));
        } else {
            assert(strip_spaces(seq![c]) == seq![c]);
        }
    } else if x[0] == ' ' {
        assert(x.push(c).skip(1) =~= x.skip(1).push(c));
        lemma_strip_spaces_push(x.skip(1), c);
    } else {
        assert(strip_spaces(x) == x);
        assert(strip_spaces(x.push(c)) == x.push(c));
    }
}

proof fn lemma_hdr_key_shape(s: Seq<char>)
    ensures
        !hdr_run(s).valid ==> hdr_run(s) == (HdrRun {
            state: HdrState::Key,
            valid: false,
            key: s,
            value: Seq::<char>::empty(),
        }),
    decreases s.len(),
{
    if s.len() > 0 {
        let t = s.drop_last();
        let c = s.last();
        lemma_hdr_key_shape(t);
        lemma_hdr_valid_state(t);
        if !hdr_run(s).valid {
            assert(!hdr_run(t).valid) by {
                if hdr_run(t).valid {
                    assert(hdr_run(t).state != HdrState::Key);
                    assert(hdr_run(s).valid);
                }
            }
            assert(c != ':');
            assert(hdr_run(s).key == hdr_run(t).key.push(c));
            assert(t.push(c) =~= s);
            assert(hdr_run(s).key =~= s);
            assert(hdr_run(s).state == HdrState::Key);
            assert(hdr_run(s).value =~= Seq::<char>::empty());
        }
    } else {
        assert(hdr_run(s) == hdr_init());
        assert(s =~= Seq::<char>::empty());
    }
}

/// Any line of the form `Name: Rest` — a name free of colons, the first
/// colon, then the rest — is accepted, with exactly that name as its key
/// and, as its value, the rest less its leading spaces and otherwise
/// verbatim.
pub proof fn lemma_header_line_shape(name: Seq<char>, rest: Seq<char>)
    requires
        forall|i: int| 0 <= i < name.len() ==> name[i] != ':',
    ensures
        ({
            let h = hdr_run(name + seq![':'] + rest);
            &&& h.valid
            &&& h.key == name
            &&& h.value == strip_spaces(rest)
            &&& h.state == (if h.value.len() == 0 {
                HdrState::Whitespace
            } else {
                HdrState::Value
            })
        }),
    decreases rest.len(),
{
    if rest.len() == 0 {
        let s = name + seq![':'] + rest;
        assert(s =~= name + seq![':']);
        assert(s.drop_last() =~= name);
        assert(s.last() == ':');
        lemma_header_valid_iff_colon(name);
        lemma_hdr_key_shape(name);
    } else {
        let s = name + seq![':'] + rest;
        let shorter = rest.drop_last();
        let c = rest.last();
        lemma_header_line_shape(name, shorter);
        assert(s.drop_last() =~= name + seq![':'] + shorter);
        assert(s.last() == c);
        lemma_strip_spaces_push(shorter, c);
        assert(strip_spaces(shorter.push(c)) == strip_spaces(rest)) by {
            assert(shorter.push(c) =~= rest);
        }
    }
}

/// The two overriding keys are different strings, so a canonical key can
/// match at most one of them.
pub proof fn lemma_special_keys_distinct()
    ensures
        "HTTP_CONTENT_TYPE"@ != "HTTP_CONTENT_LENGTH"@,
{
    reveal_strlit("HTTP_CONTENT_TYPE");
    reveal_strlit("HTTP_CONTENT_LENGTH");
    assert("HTTP_CONTENT_TYPE"@.len() == 17);
    assert("HTTP_CONTENT_LENGTH"@.len() == 19);
}

proof fn lemma_hdr_valid_state(s: Seq<char>)
    ensures
        hdr_run(s).valid <==> hdr_run(s).state != HdrState::Key,
    decreases s.len(),
{
    if s.len() > 0 {
        lemma_hdr_valid_state(s.drop_last());
    }
}

/// A header line is accepted exactly when it contains a colon.
pub proof fn lemma_header_valid_iff_colon(s: Seq<char>)
    ensures
        hdr_run(s).valid <==> exists|i: int| 0 <= i < s.len() && s[i] == ':',
    decreases s.len(),
{
    if s.len() > 0 {
        let t = s.drop_last();
        lemma_header_valid_iff_colon(t);
        lemma_hdr_valid_state(t);
        if hdr_run(t).valid {
            let i = choose|i: int| 0 <= i < t.len() && t[i] == ':';
            assert(s[i] == ':');
        } else {
            if s.last() == ':' {
                assert(s[s.len() - 1] == ':');
            } else {
                assert forall|i: int| 0 <= i < s.len() implies s[i] != ':' by {
                    if i < s.len() - 1 {
                        assert(t[i] == s[i]);
                    }
                }
            }
        }
    }
}

} // verus!
