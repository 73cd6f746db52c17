use vstd::prelude::*;
use vstd::string::StringExecFns;

use crate::text::str_eq;

verus! {

/// The mapping a sequence of key/value pairs denotes when a later write to
/// a key wins over an earlier one.
pub open spec fn map_of(entries: Seq<(String, String)>) -> Map<Seq<char>, Seq<char>>
    decreases entries.len(),
{
    if entries.len() == 0 {
        Map::empty()
    } else {
        map_of(entries.drop_last()).insert(entries.last().0@, entries.last().1@)
    }
}

/// No two entries carry the same key.
pub open spec fn keys_distinct(entries: Seq<(String, String)>) -> bool {
    forall|i: int, j: int| 0 <= i < j < entries.len() ==> entries[i].0@ != entries[j].0@
}

proof fn lemma_map_of_contains(entries: Seq<(String, String)>, k: Seq<char>)
    ensures
        map_of(entries).contains_key(k) <==> exists|i: int|
            0 <= i < entries.len() && entries[i].0@ == k,
    decreases entries.len(),
{
    if entries.len() > 0 {
        lemma_map_of_contains(entries.drop_last(), k);
        if entries.last().0@ == k {
            assert(entries[entries.len() - 1].0@ == k);
        } else if map_of(entries).contains_key(k) {
            let i = choose|i: int| 0 <= i < entries.len() - 1 && entries.drop_last()[i].0@ == k;
            assert(entries[i].0@ == k);
        } else {
            assert forall|i: int| 0 <= i < entries.len() implies entries[i].0@ != k by {
                if i < entries.len() - 1 {
                    assert(entries.drop_last()[i].0@ == entries[i].0@);
                }
            }
        }
    }
}

proof fn lemma_map_of_index(entries: Seq<(String, String)>, i: int)
    requires
        keys_distinct(entries),
        0 <= i < entries.len(),
    ensures
        map_of(entries).contains_key(entries[i].0@),
        map_of(entries)[entries[i].0@] == entries[i].1@,
    decreases entries.len(),
{
    lemma_map_of_contains(entries, entries[i].0@);
    if i == entries.len() - 1 {
    } else {
        assert(entries.drop_last()[i] == entries[i]);
        lemma_map_of_index(entries.drop_last(), i);
        assert(entries.last().0@ != entries[i].0@);
    }
}

proof fn lemma_map_of_update(entries: Seq<(String, String)>, i: int, p: (String, String))
    requires
        keys_distinct(entries),
        0 <= i < entries.len(),
        entries[i].0@ == p.0@,
    ensures
        map_of(entries.update(i, p)) == map_of(entries).insert(p.0@, p.1@),
    decreases entries.len(),
{
    let upd = entries.update(i, p);
    if i == entries.len() - 1 {
        assert(upd.drop_last() =~= entries.drop_last());
        assert(map_of(upd) == map_of(entries.drop_last()).insert(p.0@, p.1@));
        assert(map_of(entries.drop_last()).insert(entries.last().0@, entries.last().1@).insert(
            p.0@,
            p.1@,
        ) =~= map_of(entries.drop_last()).insert(p.0@, p.1@));
    } else {
        assert(upd.drop_last() =~= entries.drop_last().update(i, p));
        assert(entries.drop_last()[i] == entries[i]);
        lemma_map_of_update(entries.drop_last(), i, p);
        let last = entries.last();
        assert(upd.last() == last);
        assert(last.0@ != p.0@);
        assert(map_of(entries.drop_last()).insert(p.0@, p.1@).insert(last.0@, last.1@)
            =~= map_of(entries.drop_last()).insert(last.0@, last.1@).insert(p.0@, p.1@));
    }
}

/// A CGI environment: a write-only mapping from variable name to value with
/// last-write-wins semantics, kept as a list of pairs whose keys stay
/// pairwise distinct.
pub struct CgiEnvironment {
    entries: Vec<(String, String)>,
}

impl CgiEnvironment {
    pub closed spec fn wf(&self) -> bool {
        keys_distinct(self.entries@)
    }

    pub closed spec fn as_map(&self) -> Map<Seq<char>, Seq<char>> {
        map_of(self.entries@)
    }

    pub fn new() -> (r: CgiEnvironment)
        ensures
            r.wf(),
            r.as_map() == Map::<Seq<char>, Seq<char>>::empty(),
    {
        CgiEnvironment { entries: Vec::new() }
    }

    /// Write `key = value`; a later write to the same key replaces the
    /// earlier value.
    pub fn set(&mut self, key: String, value: String)
        requires
            old(self).wf(),
        ensures
            final(self).wf(),
            final(self).as_map() == old(self).as_map().insert(key@, value@),
    {
        let n = self.entries.len();
        let mut i: usize = 0;
        while i < n
            invariant
                self == old(self),
                old(self).wf(),
                i <= n,
                n == self.entries@.len(),
                forall|j: int| 0 <= j < i ==> self.entries@[j].0@ != key@,
            decreases n - i,
        {
            if str_eq(self.entries[i].0.as_str(), key.as_str()) {
                proof {
                    lemma_map_of_update(self.entries@, i as int, (key, value));
                }
                self.entries[i] = (key, value);
                return;
            }
            i += 1;
        }
        proof {
            let pushed = self.entries@.push((key, value));
            assert(pushed.drop_last() =~= self.entries@);
            assert forall|a: int, b: int| 0 <= a < b < pushed.len() implies pushed[a].0@
                != pushed[b].0@ by {
                if b < pushed.len() - 1 {
                    assert(pushed[a] == self.entries@[a] && pushed[b] == self.entries@[b]);
                } else {
                    assert(pushed[a] == self.entries@[a]);
                }
            }
        }
        self.entries.push((key, value));
    }

    /// Look a variable up; `None` when it was never written.
    pub fn get(&self, key: &str) -> (r: Option<&String>)
        requires
            self.wf(),
        ensures
            match r {
                Some(v) => self.as_map().contains_key(key@) && v@ == self.as_map()[key@],
                None => !self.as_map().contains_key(key@),
            },
    {
        let n = self.entries.len();
        let mut i: usize = 0;
        while i < n
            invariant
                self.wf(),
                i <= n,
                n == self.entries@.len(),
                forall|j: int| 0 <= j < i ==> self.entries@[j].0@ != key@,
            decreases n - i,
        {
            if str_eq(self.entries[i].0.as_str(), key) {
                proof {
                    lemma_map_of_index(self.entries@, i as int);
                }
                return Some(&self.entries[i].1);
            }
            i += 1;
        }
        proof {
            lemma_map_of_contains(self.entries@, key@);
        }
        None
    }

    /// How many variables are set.
    pub fn len(&self) -> (r: usize)
        requires
            self.wf(),
        ensures
            r == self.as_map().len(),
    {
        proof {
            lemma_map_of_len(self.entries@);
        }
        self.entries.len()
    }

    /// The variables as a list of pairs, for handing to a process launcher.
    pub fn into_pairs(self) -> (r: Vec<(String, String)>)
        ensures
            map_of(r@) == self.as_map(),
            keys_distinct(r@) == self.wf(),
    {
        self.entries
    }
}

proof fn lemma_map_of_len(entries: Seq<(String, String)>)
    requires
        keys_distinct(entries),
    ensures
        map_of(entries).dom().finite(),
        map_of(entries).len() == entries.len(),
    decreases entries.len(),
{
    if entries.len() > 0 {
        lemma_map_of_len(entries.drop_last());
        lemma_map_of_contains(entries.drop_last(), entries.last().0@);
        assert forall|i: int| 0 <= i < entries.len() - 1 implies entries.drop_last()[i].0@
            != entries.last().0@ by {
            assert(entries[i].0@ != entries[entries.len() - 1].0@);
        }
    }
}

/// The fixed server-identity entries of one request: the gateway interface
/// and software names, and the local address and port the listener layer
/// supplied, with the documented fallbacks `127.0.0.1` and `80` when either
/// is absent.
pub fn base_environment(local_ip: Option<String>, local_port: Option<String>) -> (r:
    CgiEnvironment)
    ensures
        r.wf(),
        r.as_map() == Map::<Seq<char>, Seq<char>>::empty()
            .insert("GATEWAY_INTERFACE"@, "CGI/1.1"@)
            .insert("SERVER_SOFTWARE"@, "cgid/0.1.0"@)
            .insert("SERVER_NAME"@, match local_ip { Some(ip) => ip@, None => "127.0.0.1"@ })
            .insert("SERVER_PORT"@, match local_port { Some(p) => p@, None => "80"@ }),
{
    let mut env = CgiEnvironment::new();
    env.set(String::from_str("GATEWAY_INTERFACE"), String::from_str("CGI/1.1"));
    env.set(String::from_str("SERVER_SOFTWARE"), String::from_str("cgid/0.1.0"));
    match local_ip {
        Some(ip) => env.set(String::from_str("SERVER_NAME"), ip),
        None => env.set(String::from_str("SERVER_NAME"), String::from_str("127.0.0.1")),
    }
    match local_port {
        Some(p) => env.set(String::from_str("SERVER_PORT"), p),
        None => env.set(String::from_str("SERVER_PORT"), String::from_str("80")),
    }
    env
}

} // verus!
