//! The cache model: deterministic key derivation from an endpoint URL,
//! age-based freshness, and a key/value store with last-writer-wins
//! update and unconditional clearing. The store here is the verified
//! in-memory model of the on-disk entry directory; key derivation and
//! freshness are shared with the directory-backed runner.

use vstd::prelude::*;
use vstd::string::{StringExecFns, StrSliceExecFns, StringSliceAdditionalSpecFns};

verus! {

/// The FNV-1a offset basis for 64-bit hashes.
pub const FNV_OFFSET: u64 = 14695981039346656037;

/// The FNV-1a prime for 64-bit hashes.
pub const FNV_PRIME: u64 = 1099511628211;

/// One FNV-1a round: fold a byte into the running hash.
pub open spec fn fnv_step(h: u64, b: u8) -> u64 {
    vstd::wrapping::u64_specs::wrapping_mul(h ^ (b as u64), FNV_PRIME)
}

/// The 64-bit FNV-1a hash of a byte string: the stable digest this
/// crate derives cache file names from.
pub open spec fn fnv64(bytes: Seq<u8>) -> u64
    decreases bytes.len(),
{
    if bytes.len() == 0 {
        FNV_OFFSET
    } else {
        fnv_step(fnv64(bytes.drop_last()), bytes.last())
    }
}

pub open spec fn hex_digit(n: int) -> char {
    if n == 0 {
        '0'
    } else if n == 1 {
        '1'
    } else if n == 2 {
        '2'
    } else if n == 3 {
        '3'
    } else if n == 4 {
        '4'
    } else if n == 5 {
        '5'
    } else if n == 6 {
        '6'
    } else if n == 7 {
        '7'
    } else if n == 8 {
        '8'
    } else if n == 9 {
        '9'
    } else if n == 10 {
        'a'
    } else if n == 11 {
        'b'
    } else if n == 12 {
        'c'
    } else if n == 13 {
        'd'
    } else if n == 14 {
        'e'
    } else {
        'f'
    }
}

/// The lowest `k` hex digits of `h`, most significant first.
pub open spec fn hex_str(h: u64, k: nat) -> Seq<char>
    decreases k,
{
    if k == 0 {
        Seq::empty()
    } else {
        hex_str(h / 16, (k - 1) as nat).push(hex_digit(h as int % 16))
    }
}

/// The cache file name an endpoint URL derives: its FNV-1a hash as 16
/// hex digits with a fixed suffix.
pub open spec fn cache_key_spec(url_bytes: Seq<u8>) -> Seq<char> {
    hex_str(fnv64(url_bytes), 16) + ".json"@
}

fn hex_char_str(d: u8) -> (r: &'static str)
    requires
        d < 16,
    ensures
        r@ =~= seq![hex_digit(d as int)],
{
    proof {
        reveal_strlit("0");
        reveal_strlit("1");
        reveal_strlit("2");
        reveal_strlit("3");
        reveal_strlit("4");
        reveal_strlit("5");
        reveal_strlit("6");
        reveal_strlit("7");
        reveal_strlit("8");
        reveal_strlit("9");
        reveal_strlit("a");
        reveal_strlit("b");
        reveal_strlit("c");
        reveal_strlit("d");
        reveal_strlit("e");
        reveal_strlit("f");
    }
    match d {
        0 => "0",
        1 => "1",
        2 => "2",
        3 => "3",
        4 => "4",
        5 => "5",
        6 => "6",
        7 => "7",
        8 => "8",
        9 => "9",
        10 => "a",
        11 => "b",
        12 => "c",
        13 => "d",
        14 => "e",
        _ => "f",
    }
}

fn hex_of(h: u64, k: usize) -> (r: String)
    requires
        k <= 16,
    ensures
        r@ == hex_str(h, k as nat),
    decreases k,
{
    if k == 0 {
        String::new()
    } else {
        let mut s = hex_of(h / 16, k - 1);
        s.append(hex_char_str((h % 16) as u8));
        proof {
            assert(s@ =~= hex_str(h / 16, (k - 1) as nat).push(hex_digit(h as int % 16)));
        }
        s
    }
}

/// Derives the cache file name for an endpoint URL: the 64-bit FNV-1a
/// hash of its UTF-8 bytes, written as 16 hex digits plus a fixed
/// suffix. Deterministic by construction, so equal endpoints always
/// address the same entry.
pub fn cache_key(normalized_url: &str) -> (r: String)
    ensures
        r@ == cache_key_spec(normalized_url.spec_bytes()),
{
    let bytes = normalized_url.as_bytes_vec();
    let mut h: u64 = FNV_OFFSET;
    let mut i: usize = 0;
    while i < bytes.len()
        invariant
            0 <= i <= bytes@.len(),
            bytes@ == normalized_url.spec_bytes(),
            h == fnv64(bytes@.take(i as int)),
        decreases bytes@.len() - i,
    {
        proof {
            assert(bytes@.take(i + 1).drop_last() =~= bytes@.take(i as int));
            assert(bytes@.take(i + 1).last() == bytes@[i as int]);
        }
        h = (h ^ (bytes[i] as u64)).wrapping_mul(FNV_PRIME);
        i = i + 1;
    }
    proof {
        assert(bytes@.take(bytes@.len() as int) =~= bytes@);
    }
    let mut name = hex_of(h, 16);
    name.append(".json");
    name
}

/// Joins a cache directory with the derived file name for a URL.
pub fn cache_path(dir: &str, url: &str) -> (r: String)
    ensures
        r@ == dir@ + "/"@ + cache_key_spec(url.spec_bytes()),
{
    let mut p = String::from_str(dir);
    p.append("/");
    let key = cache_key(url);
    p.append(key.as_str());
    p
}

/// Whether an entry written at `mtime` still satisfies the TTL at
/// `now`: entries from the future or older than the TTL are bypassed.
pub open spec fn fresh_at(now: u64, mtime: u64, ttl: u64) -> bool {
    mtime <= now && now - mtime <= ttl
}

/// Decides freshness of a stored entry from its modification time.
pub fn is_fresh(now: u64, mtime: u64, ttl: u64) -> (b: bool)
    ensures
        b == fresh_at(now, mtime, ttl),
{
    mtime <= now && now - mtime <= ttl
}

/// Compares two strings character by character.
pub fn str_eq(a: &str, b: &str) -> (r: bool)
    ensures
        r == (a@ == b@),
{
    let n = a.unicode_len();
    let m = b.unicode_len();
    if n != m {
        return false;
    }
    let mut i: usize = 0;
    while i < n
        invariant
            n == a@.len(),
            n == b@.len(),
            0 <= i <= n,
            forall|j: int| 0 <= j < i ==> a@[j] == b@[j],
        decreases n - i,
    {
        if a.get_char(i) != b.get_char(i) {
            return false;
        }
        i = i + 1;
    }
    proof {
        assert(a@ =~= b@);
    }
    true
}

/// What the store holds for one endpoint: the entry's bytes and the
/// time it was written.
pub struct CacheLine {
    pub bytes: Seq<u8>,
    pub mtime: u64,
}

struct Entry {
    key: String,
    bytes: Vec<u8>,
    mtime: u64,
}

/// A key/value store of cached response bodies keyed by endpoint URL,
/// with a write time per entry. Storing overwrites whole entries (last
/// writer wins), lookups honour a caller-supplied TTL, and clearing is
/// unconditional.
pub struct CacheStore {
    entries: Vec<Entry>,
}

spec fn line_of(e: Entry) -> CacheLine {
    CacheLine { bytes: e.bytes@, mtime: e.mtime }
}

spec fn entries_map(s: Seq<Entry>) -> Map<Seq<char>, CacheLine>
    decreases s.len(),
{
    if s.len() == 0 {
        Map::empty()
    } else {
        entries_map(s.drop_last()).insert(s.last().key@, line_of(s.last()))
    }
}

spec fn unique_keys(s: Seq<Entry>) -> bool {
    forall|i: int, j: int|
        0 <= i < j < s.len() ==> (#[trigger] s[i]).key@ != (#[trigger] s[j]).key@
}

proof fn lemma_map_member(s: Seq<Entry>, i: int)
    requires
        0 <= i < s.len(),
    ensures
        entries_map(s).contains_key(s[i].key@),
    decreases s.len(),
{
    if i < s.len() - 1 {
        lemma_map_member(s.drop_last(), i);
    }
}

proof fn lemma_map_no_match(s: Seq<Entry>, k: Seq<char>)
    requires
        forall|i: int| 0 <= i < s.len() ==> (#[trigger] s[i]).key@ != k,
    ensures
        !entries_map(s).contains_key(k),
    decreases s.len(),
{
    if s.len() > 0 {
        lemma_map_no_match(s.drop_last(), k);
    }
}

proof fn lemma_map_last_match(s: Seq<Entry>, k: Seq<char>, i: int)
    requires
        0 <= i < s.len(),
        s[i].key@ == k,
        forall|j: int| i < j < s.len() ==> (#[trigger] s[j]).key@ != k,
    ensures
        entries_map(s).contains_key(k),
        entries_map(s)[k] == line_of(s[i]),
    decreases s.len(),
{
    if i < s.len() - 1 {
        lemma_map_last_match(s.drop_last(), k, i);
    }
}

proof fn lemma_map_len(s: Seq<Entry>)
    requires
        unique_keys(s),
    ensures
        entries_map(s).dom().finite(),
        entries_map(s).len() == s.len(),
    decreases s.len(),
{
    if s.len() == 0 {
        assert(entries_map(s).dom() =~= Set::<Seq<char>>::empty());
    } else {
        assert(unique_keys(s.drop_last()));
        lemma_map_len(s.drop_last());
        lemma_map_no_match(s.drop_last(), s.last().key@);
        let m = entries_map(s.drop_last());
        let k = s.last().key@;
        assert(entries_map(s).dom() =~= m.dom().insert(k));
        vstd::set::axiom_set_insert_len(m.dom(), k);
    }
}

impl View for CacheStore {
    type V = Map<Seq<char>, CacheLine>;

    closed spec fn view(&self) -> Map<Seq<char>, CacheLine> {
        entries_map(self.entries@)
    }
}

impl CacheStore {
    /// Every stored key addresses exactly one entry.
    pub closed spec fn wf(&self) -> bool {
        unique_keys(self.entries@)
    }

    /// An empty store.
    pub fn new() -> (r: CacheStore)
        ensures
            r.wf(),
            r@ == Map::<Seq<char>, CacheLine>::empty(),
    {
        CacheStore { entries: Vec::new() }
    }

    /// Returns the stored bytes for an endpoint only when an entry
    /// exists and its age satisfies the TTL; a stale entry is treated
    /// as absent, not removed.
    pub fn lookup(&self, endpoint: &str, now: u64, ttl: u64) -> (r: Option<Vec<u8>>)
        requires
            self.wf(),
        ensures
            match r {
                Some(b) => self@.contains_key(endpoint@) && fresh_at(
                    now,
                    self@[endpoint@].mtime,
                    ttl,
                ) && b@ == self@[endpoint@].bytes,
                None => !(self@.contains_key(endpoint@) && fresh_at(
                    now,
                    self@[endpoint@].mtime,
                    ttl,
                )),
            },
    {
        let n = self.entries.len();
        let mut i: usize = n;
        while i > 0
            invariant
                self.wf(),
                n == self.entries@.len(),
                0 <= i <= n,
                forall|j: int| i <= j < n ==> (#[trigger] self.entries@[j]).key@ != endpoint@,
            decreases i,
        {
            i = i - 1;
            if str_eq(self.entries[i].key.as_str(), endpoint) {
                proof {
                    lemma_map_last_match(self.entries@, endpoint@, i as int);
                }
                if is_fresh(now, self.entries[i].mtime, ttl) {
                    return Some(vstd::slice::slice_to_vec(self.entries[i].bytes.as_slice()));
                } else {
                    return None;
                }
            }
        }
        proof {
            lemma_map_no_match(self.entries@, endpoint@);
        }
        None
    }

    /// Writes an entry for an endpoint, replacing whole entries only:
    /// after the call the store maps the endpoint to exactly these
    /// bytes at this write time.
    pub fn store(&mut self, endpoint: &str, bytes: &[u8], now: u64)
        requires
            old(self).wf(),
        ensures
            final(self).wf(),
            final(self)@ == old(self)@.insert(
                endpoint@,
                CacheLine { bytes: bytes@, mtime: now },
            ),
    {
        let entry = Entry { key: endpoint.to_owned(), bytes: vstd::slice::slice_to_vec(bytes), mtime: now };
        let n = self.entries.len();
        let mut i: usize = 0;
        while i < n
            invariant
                self == old(self),
                self.wf(),
                n == self.entries@.len(),
                0 <= i <= n,
                entry.key@ == endpoint@,
                entry.bytes@ == bytes@,
                entry.mtime == now,
                forall|j: int| 0 <= j < i ==> (#[trigger] self.entries@[j]).key@ != endpoint@,
            decreases n - i,
        {
            if str_eq(self.entries[i].key.as_str(), endpoint) {
                proof {
                    lemma_map_update(self.entries@, i as int, entry);
                }
                self.entries.set(i, entry);
                return;
            }
            i = i + 1;
        }
        proof {
            lemma_map_no_match(self.entries@, endpoint@);
            assert(self.entries@.push(entry).drop_last() =~= self.entries@);
        }
        self.entries.push(entry);
    }

    /// Lists the endpoints with a stored entry, fresh or stale alike.
    pub fn list(&self) -> (r: Vec<String>)
        requires
            self.wf(),
        ensures
            r@.len() == self@.len(),
            forall|i: int| 0 <= i < r@.len() ==> self@.contains_key((#[trigger] r@[i])@),
            forall|i: int, j: int| 0 <= i < j < r@.len() ==> (#[trigger] r@[i])@ != (
            #[trigger] r@[j])@,
    {
        proof {
            lemma_map_len(self.entries@);
        }
        let mut out: Vec<String> = Vec::new();
        let mut i: usize = 0;
        while i < self.entries.len()
            invariant
                self.wf(),
                0 <= i <= self.entries@.len(),
                out@.len() == i,
                forall|j: int| 0 <= j < i ==> (#[trigger] out@[j])@ == self.entries@[j].key@,
                forall|j: int| 0 <= j < i ==> entries_map(self.entries@).contains_key(
                    (#[trigger] out@[j])@,
                ),
            decreases self.entries@.len() - i,
        {
            proof {
                lemma_map_member(self.entries@, i as int);
            }
            out.push(self.entries[i].key.clone());
            i = i + 1;
        }
        out
    }

    /// Removes every entry unconditionally, fresh and stale alike, and
    /// reports how many were removed; clearing an empty store removes
    /// zero entries.
    pub fn clear(&mut self) -> (n: usize)
        requires
            old(self).wf(),
        ensures
            final(self).wf(),
            final(self)@ == Map::<Seq<char>, CacheLine>::empty(),
            n == old(self)@.len(),
    {
        proof {
            lemma_map_len(self.entries@);
        }
        let n = self.entries.len();
        self.entries = Vec::new();
        n
    }

    /// The number of stored entries.
    pub fn len(&self) -> (n: usize)
        requires
            self.wf(),
        ensures
            n == self@.len(),
    {
        proof {
            lemma_map_len(self.entries@);
        }
        self.entries.len()
    }
}

proof fn lemma_map_update(s: Seq<Entry>, i: int, e: Entry)
    requires
        unique_keys(s),
        0 <= i < s.len(),
        s[i].key@ == e.key@,
    ensures
        unique_keys(s.update(i, e)),
        entries_map(s.update(i, e)) == entries_map(s).insert(e.key@, line_of(e)),
    decreases s.len(),
{
    let t = s.update(i, e);
    assert forall|p: int, q: int| 0 <= p < q < t.len() implies (#[trigger] t[p]).key@ != (
    #[trigger] t[q]).key@ by {
        assert(s[p].key@ != s[q].key@);
    }
    if i == s.len() - 1 {
        assert(t.drop_last() =~= s.drop_last());
        assert(t.last() == e);
        assert(entries_map(s).insert(e.key@, line_of(e)) =~= entries_map(s.drop_last()).insert(
            e.key@,
            line_of(e),
        ));
    } else {
        assert(t.drop_last() =~= s.drop_last().update(i, e));
        assert(t.last() == s.last());
        assert(unique_keys(s.drop_last()));
        lemma_map_update(s.drop_last(), i, e);
        assert(s.drop_last()[i] == s[i]);
        assert(s.last().key@ != e.key@);
        assert(entries_map(s.drop_last()).insert(e.key@, line_of(e)).insert(
            s.last().key@,
            line_of(s.last()),
        ) =~= entries_map(s.drop_last()).insert(s.last().key@, line_of(s.last())).insert(
            e.key@,
            line_of(e),
        ));
    }
}

} // verus!
