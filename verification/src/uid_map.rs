//! The table of user names: which host name stands for which user id.

use crate::text::{
    decimal, is_digit, is_ws, lemma_decimal_digits, lemma_parse_decimal, lemma_split_on_absent, lemma_split_ws_two,
    IntErrorKind,
    lemma_parse_unsigned_bound, parse_unsigned_chars, spec_parse_unsigned, split_chars, split_on,
    split_whitespace_chars, split_ws, str_chars, str_eq, string_from_chars,
};
use std::collections::HashMap;
use vstd::prelude::*;

verus! {

broadcast use vstd::std_specs::hash::group_hash_axioms;

/// User ids and the host names that stand for them.
#[derive(Debug)]
pub struct UidMap {
    pub hostnames: HashMap<u8, String>,
}

impl View for UidMap {
    type V = Map<u8, Seq<char>>;

    open spec fn view(&self) -> Map<u8, Seq<char>> {
        self.hostnames@.map_values(|s: String| s@)
    }
}

/// What one line of the user table holds.
#[derive(Clone, Debug, PartialEq, Eq)]
pub enum UidLine {
    /// Nothing but white space and a comment.
    Blank,
    /// A single word: no host name.
    Malformed,
    /// The first word is not a user id.
    InvalidUid(String, IntErrorKind),
    /// A user id and its host name.
    Entry(u8, String),
}

/// A [`UidLine`] with its texts taken as character sequences.
pub enum UidLineV {
    Blank,
    Malformed,
    InvalidUid(Seq<char>, IntErrorKind),
    Entry(u8, Seq<char>),
}

impl View for UidLine {
    type V = UidLineV;

    open spec fn view(&self) -> UidLineV {
        match self {
            UidLine::Blank => UidLineV::Blank,
            UidLine::Malformed => UidLineV::Malformed,
            UidLine::InvalidUid(w, k) => UidLineV::InvalidUid(w@, *k),
            UidLine::Entry(u, h) => UidLineV::Entry(*u, h@),
        }
    }
}

/// What one line of the user table holds: the white-space-separated words
/// before any `#`; a user id and a host name are the first two words (more
/// are ignored).
pub open spec fn spec_uid_line(line: Seq<char>) -> UidLineV {
    let words = split_ws(split_on(line, '#')[0]);
    if words.len() == 0 {
        UidLineV::Blank
    } else if words.len() < 2 {
        UidLineV::Malformed
    } else {
        match spec_parse_unsigned(words[0], 255) {
            Ok(u) => UidLineV::Entry(u as u8, words[1]),
            Err(k) => UidLineV::InvalidUid(words[0], k),
        }
    }
}

/// Reads one line of the user table.
pub fn read_uid_line(line: &str) -> (r: UidLine)
    ensures
        r@ == spec_uid_line(line@),
{
    let chars = str_chars(line);
    let pieces = split_chars(chars.as_slice(), '#');
    assert(pieces@.map_values(|p: Vec<char>| p@)[0] == pieces@[0]@);
    let words = split_whitespace_chars(pieces[0].as_slice());
    assert(words@.len() == split_ws(split_on(line@, '#')[0]).len());
    if words.len() == 0 {
        return UidLine::Blank;
    }
    if words.len() < 2 {
        return UidLine::Malformed;
    }
    assert(words@.map_values(|p: Vec<char>| p@)[0] == words@[0]@);
    assert(words@.map_values(|p: Vec<char>| p@)[1] == words@[1]@);
    match parse_unsigned_chars(words[0].as_slice(), 255) {
        Ok(u) => {
            proof { lemma_parse_unsigned_bound(words@[0]@, 255); }
            let host = string_from_chars(words[1].as_slice());
            UidLine::Entry(u as u8, host)
        },
        Err(k) => UidLine::InvalidUid(string_from_chars(words[0].as_slice()), k),
    }
}

/// What taking in a line of the user table did.
#[derive(Clone, Debug, PartialEq, Eq)]
pub enum LineOutcome {
    /// The line held no entry: blank, malformed, or with an invalid user id.
    Skipped(UidLine),
    /// The entry was new.
    Added(u8, String),
    /// The entry replaced the host name given here.
    Replaced(u8, String),
}

impl UidMap {
    /// An empty table.
    pub fn new() -> (m: Self)
        ensures
            m@ == Map::<u8, Seq<char>>::empty(),
    {
        let m = UidMap { hostnames: HashMap::new() };
        assert(m@ =~= Map::<u8, Seq<char>>::empty());
        m
    }

    /// Forgets every entry.
    pub fn clear(&mut self)
        ensures
            final(self)@ == Map::<u8, Seq<char>>::empty(),
    {
        self.hostnames.clear();
        assert(self@ =~= Map::<u8, Seq<char>>::empty());
    }

    /// Takes in one line of the user table: a line naming a user id and a
    /// host name sets (or replaces) that entry; other lines change nothing.
    pub fn apply_line(&mut self, line: &str) -> (r: LineOutcome)
        ensures
            match spec_uid_line(line@) {
                UidLineV::Entry(u, h) => {
                    &&& final(self)@ == old(self)@.insert(u, h)
                    &&& old(self)@.contains_key(u) ==> (r matches LineOutcome::Replaced(v, o) && v == u && o@ == old(self)@[u])
                    &&& !old(self)@.contains_key(u) ==> (r matches LineOutcome::Added(v, n) && v == u && n@ == h)
                },
                l => final(self)@ == old(self)@ && (r matches LineOutcome::Skipped(k) && k@ == l),
            },
    {
        match read_uid_line(line) {
            UidLine::Entry(u, h) => {
                let ghost hv = h@;
                let previous = self.get_host(u);
                match previous {
                    Some(o) => {
                        self.hostnames.insert(u, h);
                        assert(self@ =~= old(self)@.insert(u, hv));
                        LineOutcome::Replaced(u, o)
                    },
                    None => {
                        let n = h.clone();
                        self.hostnames.insert(u, h);
                        assert(self@ =~= old(self)@.insert(u, hv));
                        LineOutcome::Added(u, n)
                    },
                }
            },
            other => LineOutcome::Skipped(other),
        }
    }

    /// The host name of user `uid`, if the table has one.
    pub fn get_host(&self, uid: u8) -> (r: Option<String>)
        ensures
            r is Some <==> self@.contains_key(uid),
            r matches Some(h) ==> h@ == self@[uid],
    {
        match self.hostnames.get(&uid) {
            Some(h) => Some(h.clone()),
            None => None,
        }
    }

    /// The smallest user id whose host name is `name`, if there is one.
    pub fn get_uid(&self, name: &str) -> (r: Option<u8>)
        ensures
            r == spec_get_uid(self@, name@),
    {
        let mut u: u16 = 0;
        while u < 256
            invariant
                u <= 256,
                spec_get_uid(self@, name@) == first_uid_from(self@, name@, u as nat),
            decreases 256 - u,
        {
            let v = u as u8;
            assert(v == u);
            match self.hostnames.get(&v) {
                Some(h) => {
                    if str_eq(h.as_str(), name) {
                        return Some(v);
                    }
                },
                None => {},
            }
            u = u + 1;
        }
        None
    }
}

/// A line of the user table that gives a user id in decimal, one space
/// and a host name (no white space, no `#` in it) is the entry for that
/// user and name.
pub proof fn lemma_uid_line_entry(uid: u8, host: Seq<char>)
    requires
        host.len() > 0,
        forall|i: int| 0 <= i < host.len() ==> !is_ws(#[trigger] host[i]) && host[i] != '#',
    ensures
        spec_uid_line(decimal(uid as nat) + seq![' '] + host) == UidLineV::Entry(uid, host),
{
    let d = decimal(uid as nat);
    let line = d + seq![' '] + host;
    lemma_decimal_digits(uid as nat);
    assert forall|i: int| 0 <= i < d.len() implies !is_ws(#[trigger] d[i]) && d[i] != '#' by {
        assert(is_digit(d[i]));
    }
    assert forall|i: int| 0 <= i < line.len() implies line[i] != '#' by {
        if i < d.len() {
            assert(line[i] == d[i]);
        } else if i == d.len() {
            assert(line[i] == ' ');
        } else {
            assert(line[i] == host[i - d.len() - 1]);
        }
    }
    lemma_split_on_absent(line, '#');
    lemma_split_ws_two(d, host);
    lemma_parse_decimal(uid as nat, 255);
}

/// The smallest user id from `u` on whose host name is `name`.
pub open spec fn first_uid_from(m: Map<u8, Seq<char>>, name: Seq<char>, u: nat) -> Option<u8>
    decreases 256 - u,
{
    if u >= 256 {
        None
    } else if m.contains_key(u as u8) && m[u as u8] == name {
        Some(u as u8)
    } else {
        first_uid_from(m, name, u + 1)
    }
}

/// The smallest user id whose host name is `name`.
pub open spec fn spec_get_uid(m: Map<u8, Seq<char>>, name: Seq<char>) -> Option<u8> {
    first_uid_from(m, name, 0)
}

/// `spec_get_uid` finds a user with that name exactly when there is one.
pub proof fn lemma_get_uid(m: Map<u8, Seq<char>>, name: Seq<char>, u: nat)
    requires
        u <= 256,
    ensures
        first_uid_from(m, name, u) matches Some(v) ==> u <= v && m.contains_key(v) && m[v] == name
            && forall|w: u8| u <= w < v ==> !(m.contains_key(w) && m[w] == name),
        first_uid_from(m, name, u) is None ==> forall|w: u8| u <= w ==> !(m.contains_key(w) && m[w] == name),
    decreases 256 - u,
{
    if u < 256 {
        lemma_get_uid(m, name, u + 1);
    }
}

}
