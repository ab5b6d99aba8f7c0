//! Where cached answers are kept, and when they are too old to use.
use vstd::prelude::*;

use crate::config::{join_path, path_join};
use crate::text::{chars_of, push_char, push_str, string_of};

verus! {

/// A directory of cached answers, one file per key.
#[derive(Clone)]
pub struct Cache {
    dir: String,
}

impl View for Cache {
    type V = Seq<char>;

    /// The directory.
    closed spec fn view(&self) -> Seq<char> {
        self.dir@
    }
}

/// Characters that cannot stand in a file name.
pub open spec fn is_unsafe_char(c: char) -> bool {
    c == '/' || c == '\\' || c == ':' || c == '?' || c == '*' || c == '"' || c == '<' || c
        == '>' || c == '|'
}

/// The file name for `key`: every character that cannot stand in a file
/// name replaced by `_`.
pub open spec fn safe_name(key: Seq<char>) -> Seq<char> {
    Seq::new(key.len(), |i: int| if is_unsafe_char(key[i]) { '_' } else { key[i] })
}

fn safe_key(key: &str) -> (r: String)
    ensures
        r@ == safe_name(key@),
{
    let v = chars_of(key);
    let mut r = String::new();
    let mut i: usize = 0;
    while i < v.len()
        invariant
            v@ == key@,
            i <= v@.len(),
            r@ == safe_name(key@).take(i as int),
        decreases v@.len() - i,
    {
        let c = v[i];
        let d = if c == '/' || c == '\\' || c == ':' || c == '?' || c == '*' || c == '"' || c
            == '<' || c == '>' || c == '|' {
            '_'
        } else {
            c
        };
        push_char(&mut r, d);
        assert(safe_name(key@).take(i + 1) =~= safe_name(key@).take(i as int).push(d));
        i = i + 1;
    }
    assert(safe_name(key@).take(i as int) =~= safe_name(key@));
    r
}

/// Whether an answer of age `age_secs` seconds and `age_nanos` nanoseconds
/// is older than `ttl_hours` hours (an answer of exactly that age is still
/// fresh).
pub open spec fn expired(age_secs: nat, age_nanos: nat, ttl_hours: nat) -> bool {
    age_secs > ttl_hours * 3600 || (age_secs == ttl_hours * 3600 && age_nanos > 0)
}

impl Cache {
    /// A cache in `dir`.
    pub fn new(dir: &str) -> (c: Cache)
        ensures
            c@ == dir@,
    {
        Cache { dir: string_of(chars_of(dir).as_slice()) }
    }

    /// The directory.
    pub fn dir(&self) -> (d: &str)
        ensures
            d@ == self@,
    {
        self.dir.as_str()
    }

    /// The JSON file that holds the answer for `key`.
    pub fn path(&self, key: &str) -> (p: String)
        ensures
            p@ == path_join(self@, safe_name(key@) + ".json"@),
    {
        let mut name = safe_key(key);
        push_str(&mut name, ".json");
        join_path(self.dir.as_str(), name.as_str())
    }

    /// The file named by `key` alone.
    pub fn raw_path(&self, key: &str) -> (p: String)
        ensures
            p@ == path_join(self@, safe_name(key@)),
    {
        let name = safe_key(key);
        join_path(self.dir.as_str(), name.as_str())
    }

    /// Whether an answer of the given age is too old for a lifetime of
    /// `ttl_hours` hours.
    pub fn is_expired(age_secs: u64, age_nanos: u32, ttl_hours: u64) -> (r: bool)
        requires
            ttl_hours * 3600 <= u64::MAX,
        ensures
            r == expired(age_secs as nat, age_nanos as nat, ttl_hours as nat),
    {
        let limit = ttl_hours * 3600;
        age_secs > limit || (age_secs == limit && age_nanos > 0)
    }
}

/// Law: a file name made from a key has as many characters as the key and
/// none that cannot stand in a file name.
pub proof fn law_safe_name(key: Seq<char>)
    ensures
        safe_name(key).len() == key.len(),
        forall|i: int| 0 <= i < key.len() ==> !is_unsafe_char(#[trigger] safe_name(key)[i]),
        forall|i: int|
            0 <= i < key.len() && !is_unsafe_char(key[i]) ==> #[trigger] safe_name(key)[i]
                == key[i],
{
}

} // verus!
