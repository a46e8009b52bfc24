//! The secret vault: API keys never go into the database. The vault keeps
//! them in memory and, when opened on a data directory, also in the system
//! keychain and in files under that directory. The keychain and the files
//! are read and written by the application; the vault decides what is
//! read, in which order, and what is remembered.
use vstd::prelude::*;
use crate::text::{chars_of, copy_string, str_eq, string_of};

verus! {

/// The key under which the model API key is kept.
pub const MODEL_API_KEY: &'static str = "model.api_key";

/// Why a secret could not be read or written.
#[derive(Debug, Clone, PartialEq, Eq)]
pub enum SecretError {
    InvalidKey(String),
    Unavailable(String),
}

impl SecretError {
    /// The error's message.
    pub fn message(&self) -> (r: String)
        ensures
            r@ == match self {
                SecretError::InvalidKey(k) => "invalid secret key: "@ + k@,
                SecretError::Unavailable(m) => "secret store unavailable: "@ + m@,
            },
    {
        match self {
            SecretError::InvalidKey(k) => {
                let mut v = chars_of("invalid secret key: ");
                crate::text::append_str(&mut v, k.as_str());
                string_of(v.as_slice())
            },
            SecretError::Unavailable(m) => {
                let mut v = chars_of("secret store unavailable: ");
                crate::text::append_str(&mut v, m.as_str());
                string_of(v.as_slice())
            },
        }
    }
}

/// Whether a character may appear in a secret key: an ASCII letter or
/// digit, `.`, `_` or `-`.
pub open spec fn key_char(c: char) -> bool {
    ('0' <= c <= '9') || ('a' <= c <= 'z') || ('A' <= c <= 'Z') || c == '.' || c == '_' || c == '-'
}

/// Whether a key is acceptable: not empty, and made of key characters only
/// (so it can never name a path outside the vault).
pub open spec fn valid_key(key: Seq<char>) -> bool {
    key.len() > 0 && forall|i: int| 0 <= i < key.len() ==> key_char(#[trigger] key[i])
}

/// Checks a secret key; an unacceptable key is refused with its text.
pub fn validate_key(key: &str) -> (r: Result<(), SecretError>)
    ensures
        valid_key(key@) <==> r is Ok,
        !valid_key(key@) ==> (r matches Err(SecretError::InvalidKey(k)) && k@ == key@),
{
    let v = chars_of(key);
    if v.len() == 0 {
        return Err(SecretError::InvalidKey(string_of(v.as_slice())));
    }
    let mut i: usize = 0;
    while i < v.len()
        invariant
            i <= v.len(),
            v@ == key@,
            forall|k: int| 0 <= k < i ==> key_char(#[trigger] v@[k]),
        decreases v.len() - i,
    {
        let c = v[i];
        if !(('0' <= c && c <= '9') || ('a' <= c && c <= 'z') || ('A' <= c && c <= 'Z') || c == '.'
            || c == '_' || c == '-') {
            return Err(SecretError::InvalidKey(string_of(v.as_slice())));
        }
        i += 1;
    }
    Ok(())
}


/// The secrets a list of key/secret pairs holds.
pub open spec fn pairs_map(pairs: Seq<(String, String)>) -> Map<Seq<char>, Seq<char>>
    decreases pairs.len(),
{
    if pairs.len() == 0 {
        Map::empty()
    } else {
        pairs_map(pairs.drop_last()).insert(pairs.last().0@, pairs.last().1@)
    }
}

/// Whether no key occurs twice in the list.
pub open spec fn keys_unique(pairs: Seq<(String, String)>) -> bool {
    forall|i: int, j: int| 0 <= i < j < pairs.len() ==> pairs[i].0@ != pairs[j].0@
}

/// The vault of secrets kept out of the database.
pub struct SecretVault {
    memory: Vec<(String, String)>,
    data_dir: Option<String>,
    use_keyring: bool,
}

/// Where a lookup stands: just started, or back with what the keychain or
/// the secret file gave (the file gives nothing for an empty file).
pub enum SecretLookup {
    Start,
    FromKeyring(Option<String>),
    FromFile(Option<String>),
}

/// What a lookup needs next: it is done with its answer, or the keychain
/// or the secret file must be read.
#[derive(Debug, Clone, PartialEq, Eq)]
pub enum SecretNext {
    Found(Option<String>),
    ReadKeyring,
    ReadFile,
}

/// A lookup's next step as text.
pub enum NextView {
    Found(Option<Seq<char>>),
    ReadKeyring,
    ReadFile,
}

/// The view of a lookup's next step.
pub open spec fn next_view(n: SecretNext) -> NextView {
    match n {
        SecretNext::Found(v) => NextView::Found(crate::protocol::opt_view(v)),
        SecretNext::ReadKeyring => NextView::ReadKeyring,
        SecretNext::ReadFile => NextView::ReadFile,
    }
}

/// What a lookup needs after the memory or the keychain had nothing: the
/// secret file when the vault has a data directory, else it is done with
/// nothing.
pub open spec fn after_keyring(has_dir: bool) -> NextView {
    if has_dir {
        NextView::ReadFile
    } else {
        NextView::Found(None)
    }
}

/// Where a lookup goes from memory: a non-empty secret held in memory
/// answers; otherwise the keychain when the vault uses it, then the file.
pub open spec fn start_step(
    secrets: Map<Seq<char>, Seq<char>>,
    keyring: bool,
    has_dir: bool,
    key: Seq<char>,
) -> NextView {
    if secrets.dom().contains(key) && secrets[key].len() > 0 {
        NextView::Found(Some(secrets[key]))
    } else if keyring {
        NextView::ReadKeyring
    } else {
        after_keyring(has_dir)
    }
}

impl SecretVault {
    /// The secrets the vault holds in memory.
    pub closed spec fn secrets(&self) -> Map<Seq<char>, Seq<char>> {
        pairs_map(self.memory@)
    }

    /// Whether the vault is well formed: no key is held twice.
    pub closed spec fn wf(&self) -> bool {
        keys_unique(self.memory@)
    }

    /// Whether the vault also uses the system keychain.
    pub closed spec fn keyring(&self) -> bool {
        self.use_keyring
    }

    /// The data directory whose `secrets` subdirectory holds secret files.
    pub closed spec fn directory(&self) -> Option<Seq<char>> {
        crate::protocol::opt_view(self.data_dir)
    }

    /// A vault that keeps secrets in memory only.
    pub fn memory() -> (r: SecretVault)
        ensures
            r.wf(),
            r.secrets() == Map::<Seq<char>, Seq<char>>::empty(),
            !r.keyring(),
            r.directory() is None,
    {
        SecretVault { memory: Vec::new(), data_dir: None, use_keyring: false }
    }

    /// A vault that also uses the system keychain and secret files under
    /// the `secrets` subdirectory of `data_dir`.
    pub fn open(data_dir: &str) -> (r: SecretVault)
        ensures
            r.wf(),
            r.secrets() == Map::<Seq<char>, Seq<char>>::empty(),
            r.keyring(),
            r.directory() == Some(data_dir@),
    {
        SecretVault {
            memory: Vec::new(),
            data_dir: Some(string_of(chars_of(data_dir).as_slice())),
            use_keyring: true,
        }
    }

    /// The data directory, when the vault has one.
    pub fn data_dir(&self) -> (r: Option<String>)
        ensures
            crate::protocol::opt_view(r) == self.directory(),
    {
        match &self.data_dir {
            Some(d) => Some(copy_string(d)),
            None => None,
        }
    }

    /// Whether the vault also uses the system keychain.
    pub fn uses_keyring(&self) -> (r: bool)
        ensures
            r == self.keyring(),
    {
        self.use_keyring
    }

    fn position(&self, key: &str) -> (r: Option<usize>)
        requires
            self.wf(),
        ensures
            match r {
                Some(i) => i < self.memory@.len() && self.memory@[i as int].0@ == key@,
                None => forall|i: int| 0 <= i < self.memory@.len() ==> self.memory@[i].0@ != key@,
            },
    {
        let mut i: usize = 0;
        while i < self.memory.len()
            invariant
                i <= self.memory.len(),
                forall|k: int| 0 <= k < i ==> self.memory@[k].0@ != key@,
            decreases self.memory.len() - i,
        {
            if str_eq(self.memory[i].0.as_str(), key) {
                return Some(i);
            }
            i += 1;
        }
        None
    }

    /// Remembers a secret in memory.
    fn remember(&mut self, key: &str, secret: &str)
        requires
            old(self).wf(),
        ensures
            final(self).wf(),
            final(self).secrets() == old(self).secrets().insert(key@, secret@),
            final(self).keyring() == old(self).keyring(),
            final(self).directory() == old(self).directory(),
    {
        proof {
            lemma_pairs_map_dom(self.memory@, key@);
        }
        let k = string_of(chars_of(key).as_slice());
        let s = string_of(chars_of(secret).as_slice());
        match self.position(key) {
            Some(i) => {
                let ghost m0 = self.memory@;
                let ghost e = (k, s);
                self.memory.remove(i);
                self.memory.insert(i, (k, s));
                proof {
                    assert(self.memory@ =~= m0.update(i as int, e));
                    lemma_pairs_map_update(m0, i as int, e);
                }
            },
            None => {
                let ghost m0 = self.memory@;
                self.memory.push((k, s));
                proof {
                    assert(self.memory@.drop_last() =~= m0);
                    assert forall|a: int, b: int| 0 <= a < b < self.memory@.len() implies self.memory@[a].0@
                        != self.memory@[b].0@ by {
                        if b == m0.len() {
                            assert(self.memory@[a] == m0[a]);
                        } else {
                            assert(self.memory@[a] == m0[a] && self.memory@[b] == m0[b]);
                        }
                    }
                }
            },
        }
    }

    /// Stores a secret under a key: refused for an unacceptable key,
    /// otherwise kept in memory. Writing it to the keychain and the secret
    /// file, when the vault uses them, is the application's part.
    pub fn put(&mut self, key: &str, secret: &str) -> (r: Result<(), SecretError>)
        requires
            old(self).wf(),
        ensures
            final(self).wf(),
            final(self).keyring() == old(self).keyring(),
            final(self).directory() == old(self).directory(),
            valid_key(key@) <==> r is Ok,
            r is Ok ==> final(self).secrets() == old(self).secrets().insert(key@, secret@),
            r is Err ==> (r matches Err(SecretError::InvalidKey(k)) && k@ == key@) && final(self).secrets() == old(self).secrets(),
    {
        match validate_key(key) {
            Err(e) => Err(e),
            Ok(()) => {
                self.remember(key, secret);
                Ok(())
            },
        }
    }

    /// Forgets the secret under a key: refused for an unacceptable key,
    /// otherwise removed from memory. Removing it from the keychain and the
    /// secret file, when the vault uses them, is the application's part.
    pub fn delete(&mut self, key: &str) -> (r: Result<(), SecretError>)
        requires
            old(self).wf(),
        ensures
            final(self).wf(),
            final(self).keyring() == old(self).keyring(),
            final(self).directory() == old(self).directory(),
            valid_key(key@) <==> r is Ok,
            r is Ok ==> final(self).secrets() == old(self).secrets().remove(key@),
            r is Err ==> (r matches Err(SecretError::InvalidKey(k)) && k@ == key@) && final(self).secrets() == old(self).secrets(),
    {
        match validate_key(key) {
            Err(e) => Err(e),
            Ok(()) => {
                proof {
                    lemma_pairs_map_dom(self.memory@, key@);
                }
                match self.position(key) {
                    Some(i) => {
                        let ghost m0 = self.memory@;
                        self.memory.remove(i);
                        proof {
                            lemma_pairs_map_remove(m0, i as int);
                        }
                    },
                    None => {
                        proof {
                            assert(!self.secrets().dom().contains(key@));
                            assert(self.secrets().remove(key@) =~= self.secrets());
                        }
                    },
                }
                Ok(())
            },
        }
    }

    /// One step of a lookup. A lookup starts from memory, where a non-empty
    /// secret answers at once; then, when the vault uses them, the keychain
    /// (a non-empty secret answers and is remembered) and the secret file
    /// (a secret answers and is remembered); else it answers nothing. An
    /// unacceptable key is refused at every step.
    pub fn get_step(&mut self, key: &str, lookup: SecretLookup) -> (r: Result<SecretNext, SecretError>)
        requires
            old(self).wf(),
        ensures
            final(self).wf(),
            final(self).keyring() == old(self).keyring(),
            final(self).directory() == old(self).directory(),
            !valid_key(key@) ==> (r matches Err(SecretError::InvalidKey(k)) && k@ == key@) && final(self).secrets() == old(self).secrets(),
            valid_key(key@) ==> r is Ok && match lookup {
                SecretLookup::Start => final(self).secrets() == old(self).secrets() && next_view(
                    r->Ok_0,
                ) == start_step(
                    old(self).secrets(),
                    old(self).keyring(),
                    old(self).directory() is Some,
                    key@,
                ),
                SecretLookup::FromKeyring(v) => if v is Some && v->0@.len() > 0 {
                    final(self).secrets() == old(self).secrets().insert(key@, v->0@) && next_view(
                        r->Ok_0,
                    ) == NextView::Found(Some(v->0@))
                } else {
                    final(self).secrets() == old(self).secrets() && next_view(r->Ok_0) == after_keyring(
                        old(self).directory() is Some,
                    )
                },
                SecretLookup::FromFile(v) => match v {
                    Some(s) => final(self).secrets() == old(self).secrets().insert(key@, s@)
                        && next_view(r->Ok_0) == NextView::Found(Some(s@)),
                    None => final(self).secrets() == old(self).secrets() && next_view(r->Ok_0)
                        == NextView::Found(None),
                },
            },
    {
        if let Err(e) = validate_key(key) {
            return Err(e);
        }
        match lookup {
            SecretLookup::Start => {
                proof {
                    lemma_pairs_map_dom(self.memory@, key@);
                }
                match self.position(key) {
                    Some(i) => {
                        proof {
                            lemma_pairs_map_at(self.memory@, i as int);
                        }
                        if self.memory[i].1.as_str().unicode_len() > 0 {
                            return Ok(SecretNext::Found(Some(copy_string(&self.memory[i].1))));
                        }
                    },
                    None => {
                        assert(!self.secrets().dom().contains(key@));
                    },
                }
                if self.use_keyring {
                    Ok(SecretNext::ReadKeyring)
                } else if self.data_dir.is_some() {
                    Ok(SecretNext::ReadFile)
                } else {
                    Ok(SecretNext::Found(None))
                }
            },
            SecretLookup::FromKeyring(v) => {
                match v {
                    Some(s) => {
                        if s.as_str().unicode_len() > 0 {
                            self.remember(key, s.as_str());
                            return Ok(SecretNext::Found(Some(s)));
                        }
                    },
                    None => {},
                }
                if self.data_dir.is_some() {
                    Ok(SecretNext::ReadFile)
                } else {
                    Ok(SecretNext::Found(None))
                }
            },
            SecretLookup::FromFile(v) => match v {
                Some(s) => {
                    self.remember(key, s.as_str());
                    Ok(SecretNext::Found(Some(s)))
                },
                None => Ok(SecretNext::Found(None)),
            },
        }
    }

    /// Whether a lookup's outcome shows the secret is set: it succeeded with
    /// a non-empty secret.
    pub fn is_set(&self, outcome: &Result<Option<String>, SecretError>) -> (r: bool)
        ensures
            r == (outcome matches Ok(Some(s)) && s@.len() > 0),
    {
        match outcome {
            Ok(Some(s)) => s.as_str().unicode_len() > 0,
            _ => false,
        }
    }
}

proof fn lemma_pairs_map_dom(pairs: Seq<(String, String)>, k: Seq<char>)
    ensures
        pairs_map(pairs).dom().contains(k) <==> exists|i: int|
            0 <= i < pairs.len() && #[trigger] pairs[i].0@ == k,
    decreases pairs.len(),
{
    if pairs.len() > 0 {
        let p = pairs.drop_last();
        lemma_pairs_map_dom(p, k);
        if pairs_map(pairs).dom().contains(k) {
            if k == pairs.last().0@ {
                assert(pairs[pairs.len() - 1].0@ == k);
            } else {
                assert(pairs_map(p).dom().contains(k));
                let i = choose|i: int| 0 <= i < p.len() && #[trigger] p[i].0@ == k;
                assert(pairs[i] == p[i]);
                assert(pairs[i].0@ == k);
            }
        }
        if exists|i: int| 0 <= i < pairs.len() && #[trigger] pairs[i].0@ == k {
            let i = choose|i: int| 0 <= i < pairs.len() && #[trigger] pairs[i].0@ == k;
            if i < pairs.len() - 1 {
                assert(p[i] == pairs[i]);
                assert(p[i].0@ == k);
            }
        }
    }
}

proof fn lemma_pairs_map_at(pairs: Seq<(String, String)>, i: int)
    requires
        keys_unique(pairs),
        0 <= i < pairs.len(),
    ensures
        pairs_map(pairs).dom().contains(pairs[i].0@),
        pairs_map(pairs)[pairs[i].0@] == pairs[i].1@,
    decreases pairs.len(),
{
    if i < pairs.len() - 1 {
        let p = pairs.drop_last();
        assert(keys_unique(p)) by {
            assert forall|a: int, b: int| 0 <= a < b < p.len() implies p[a].0@ != p[b].0@ by {
                assert(p[a] == pairs[a] && p[b] == pairs[b]);
            }
        }
        assert(p[i] == pairs[i]);
        lemma_pairs_map_at(p, i);
        assert(pairs[i].0@ != pairs.last().0@);
    }
}

proof fn lemma_pairs_map_update(pairs: Seq<(String, String)>, i: int, e: (String, String))
    requires
        keys_unique(pairs),
        0 <= i < pairs.len(),
        e.0@ == pairs[i].0@,
    ensures
        keys_unique(pairs.update(i, e)),
        pairs_map(pairs.update(i, e)) == pairs_map(pairs).insert(e.0@, e.1@),
    decreases pairs.len(),
{
    let u = pairs.update(i, e);
    assert forall|a: int, b: int| 0 <= a < b < u.len() implies u[a].0@ != u[b].0@ by {
        assert(u[a].0@ == pairs[a].0@);
        assert(u[b].0@ == pairs[b].0@);
    }
    let p = pairs.drop_last();
    assert(keys_unique(p)) by {
        assert forall|a: int, b: int| 0 <= a < b < p.len() implies p[a].0@ != p[b].0@ by {
            assert(p[a] == pairs[a] && p[b] == pairs[b]);
        }
    }
    if i == pairs.len() - 1 {
        assert(u.drop_last() =~= p);
        assert(pairs_map(u) =~= pairs_map(pairs).insert(e.0@, e.1@));
    } else {
        lemma_pairs_map_update(p, i, e);
        assert(u.drop_last() =~= p.update(i, e));
        assert(e.0@ != pairs.last().0@);
        assert(pairs_map(u) =~= pairs_map(pairs).insert(e.0@, e.1@));
    }
}

proof fn lemma_pairs_map_remove(pairs: Seq<(String, String)>, i: int)
    requires
        keys_unique(pairs),
        0 <= i < pairs.len(),
    ensures
        keys_unique(pairs.remove(i)),
        pairs_map(pairs.remove(i)) == pairs_map(pairs).remove(pairs[i].0@),
    decreases pairs.len(),
{
    let u = pairs.remove(i);
    assert forall|a: int, b: int| 0 <= a < b < u.len() implies u[a].0@ != u[b].0@ by {
        let a0 = if a < i { a } else { a + 1 };
        let b0 = if b < i { b } else { b + 1 };
        assert(u[a] == pairs[a0] && u[b] == pairs[b0]);
    }
    let p = pairs.drop_last();
    assert(keys_unique(p)) by {
        assert forall|a: int, b: int| 0 <= a < b < p.len() implies p[a].0@ != p[b].0@ by {
            assert(p[a] == pairs[a] && p[b] == pairs[b]);
        }
    }
    lemma_pairs_map_dom(p, pairs[i].0@);
    if i == pairs.len() - 1 {
        assert(u =~= p);
        assert forall|a: int| 0 <= a < p.len() implies p[a].0@ != pairs[i].0@ by {
            assert(p[a] == pairs[a]);
        }
        assert(!pairs_map(p).dom().contains(pairs[i].0@));
        assert(pairs_map(u) =~= pairs_map(pairs).remove(pairs[i].0@));
    } else {
        lemma_pairs_map_remove(p, i);
        assert(u.drop_last() =~= p.remove(i));
        assert(u.last() == pairs.last());
        assert(pairs[i] == p[i]);
        assert(pairs[i].0@ != pairs.last().0@);
        assert(pairs_map(u) =~= pairs_map(pairs).remove(pairs[i].0@));
    }
}

/// A non-empty secret written under a key is what a lookup of that key
/// answers next, from memory, whatever the vault held before and whether or
/// not it uses the keychain and files.
pub proof fn lemma_put_then_get(
    before: Map<Seq<char>, Seq<char>>,
    keyring: bool,
    has_dir: bool,
    key: Seq<char>,
    secret: Seq<char>,
)
    requires
        secret.len() > 0,
    ensures
        start_step(before.insert(key, secret), keyring, has_dir, key) == NextView::Found(Some(secret)),
{
}

/// Once a key is deleted from a vault that keeps secrets in memory only, a
/// lookup of it answers nothing.
pub proof fn lemma_delete_then_get(before: Map<Seq<char>, Seq<char>>, key: Seq<char>)
    ensures
        start_step(before.remove(key), false, false, key) == NextView::Found(None),
{
}

/// Writing a secret under one key leaves what a lookup of any other key
/// answers unchanged.
pub proof fn lemma_put_keeps_others(
    before: Map<Seq<char>, Seq<char>>,
    keyring: bool,
    has_dir: bool,
    key: Seq<char>,
    secret: Seq<char>,
    other: Seq<char>,
)
    requires
        other != key,
    ensures
        start_step(before.insert(key, secret), keyring, has_dir, other) == start_step(
            before,
            keyring,
            has_dir,
            other,
        ),
{
    assert(before.insert(key, secret).dom().contains(other) == before.dom().contains(other));
}

} // verus!
