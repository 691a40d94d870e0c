//! Identities: secret keys, peer IDs, and the peers that a server lets in.

use vstd::prelude::*;
use vstd::slice::slice_to_vec;

use crate::text::{
    chars_of, decimal_digits, find_line_end, is_blank, is_line, is_text, is_white_space,
    law_trim_around, law_trimmed, lemma_line_end, line_end, number_text, opt_str, trim, trim_range,
};
use crate::z32::{lemma_z32_injective, lemma_z32_key_text, lemma_z32_symbols, z32_text};

verus! {

/// Whether 32 bytes are the public key of a peer, that is, whether
/// `iroh::PublicKey::from_bytes` accepts them.
pub uninterp spec fn is_public_key(bytes: Seq<u8>) -> bool;

/// The public key that belongs to the 32 bytes of a secret key, as
/// `iroh::SecretKey::public` derives it.
pub uninterp spec fn public_of(secret: Seq<u8>) -> Seq<u8>;

/// Why a text is not a peer ID.
#[derive(Clone, Copy, Debug, PartialEq, Eq, Structural)]
pub enum PeerIdError {
    /// It is not z-base-32.
    NotBase32,
    /// It is, but not of a public key.
    NotPublicKey,
}

impl PeerIdError {
    /// What the error says.
    pub open spec fn says(self) -> Seq<char> {
        match self {
            PeerIdError::NotBase32 => "failed to decode base32 string"@,
            PeerIdError::NotPublicKey => "data is not a valid public key"@,
        }
    }

    /// The error in words.
    pub fn message(&self) -> (r: String)
        ensures
            r@ == self.says(),
    {
        match self {
            PeerIdError::NotBase32 => "failed to decode base32 string".to_owned(),
            PeerIdError::NotPublicKey => "data is not a valid public key".to_owned(),
        }
    }
}

/// The public key that a text is the peer ID of.
pub open spec fn peer_of(s: Seq<char>) -> Result<Seq<u8>, PeerIdError> {
    if exists|b: Seq<u8>| s == #[trigger] z32_text(b) {
        let b = choose|b: Seq<u8>| s == #[trigger] z32_text(b);
        if b.len() == 32 && is_public_key(b) {
            Ok(b)
        } else {
            Err(PeerIdError::NotPublicKey)
        }
    } else {
        Err(PeerIdError::NotBase32)
    }
}

/// The text of bytes stands for those bytes.
proof fn lemma_peer_of(b: Seq<u8>)
    ensures
        peer_of(z32_text(b)) == if b.len() == 32 && is_public_key(b) {
            Ok::<Seq<u8>, PeerIdError>(b)
        } else {
            Err(PeerIdError::NotPublicKey)
        },
{
    let s = z32_text(b);
    let c = choose|c: Seq<u8>| s == #[trigger] z32_text(c);
    lemma_z32_injective(b, c);
}

/// `iroh::PublicKey::from_bytes`: whether 32 bytes are a public key.
#[verifier::external_body]
fn accepts_public_key(bytes: &[u8; 32]) -> (r: bool)
    ensures
        r == is_public_key(bytes@),
{
    iroh::PublicKey::from_bytes(bytes).is_ok()
}

/// `iroh::PublicKey::to_z32`: the z-base-32 text of a public key. The key is
/// rebuilt from its bytes, which `from_bytes` keeps as they are.
#[verifier::external_body]
fn public_key_text(bytes: &[u8; 32]) -> (r: String)
    requires
        is_public_key(bytes@),
    ensures
        r@ == z32_text(bytes@),
{
    iroh::PublicKey::from_bytes(bytes).expect("bytes of a public key").to_z32()
}

/// `iroh::PublicKey::from_z32`: the bytes of the public key that a z-base-32
/// text stands for. It takes exactly the texts that encoding can produce: a key
/// comes out where that is the text of one, and the two ways to fail are that
/// the text encodes no bytes, or bytes that are no key.
#[verifier::external_body]
fn public_key_of_text(s: &str) -> (r: Result<[u8; 32], PeerIdError>)
    ensures
        match r {
            Ok(k) => s@ == z32_text(k@) && is_public_key(k@),
            Err(PeerIdError::NotBase32) => forall|b: Seq<u8>| s@ != #[trigger] z32_text(b),
            Err(PeerIdError::NotPublicKey) => exists|b: Seq<u8>|
                s@ == #[trigger] z32_text(b) && !(b.len() == 32 && is_public_key(b)),
        },
{
    match iroh::PublicKey::from_z32(s) {
        Ok(k) => Ok(*k.as_bytes()),
        Err(iroh::KeyParsingError::FailedToDecodeBase32 { .. }) => Err(PeerIdError::NotBase32),
        Err(_) => Err(PeerIdError::NotPublicKey),
    }
}

/// `iroh::SecretKey::public`: the public key of a secret key, from bytes to
/// bytes. Every 32 bytes are a secret key.
#[verifier::external_body]
fn public_key_of_secret(secret: &[u8; 32]) -> (r: [u8; 32])
    ensures
        r@ == public_of(secret@),
        is_public_key(r@),
{
    *iroh::SecretKey::from_bytes(secret).public().as_bytes()
}

/// `iroh::SecretKey::generate`: 32 random bytes. Nothing is promised of them.
#[verifier::external_body]
fn generate_secret() -> (r: [u8; 32]) {
    iroh::SecretKey::generate().to_bytes()
}

/// The identity of a peer: its public key.
#[derive(Clone, Copy, Debug, PartialEq, Eq)]
pub struct EndpointId {
    bytes: [u8; 32],
}

impl View for EndpointId {
    type V = Seq<u8>;

    closed spec fn view(&self) -> Seq<u8> {
        self.bytes@
    }
}

impl EndpointId {
    #[verifier::type_invariant]
    spec fn valid(self) -> bool {
        is_public_key(self.bytes@)
    }

    /// The peer with this public key, if it is one.
    pub fn from_bytes(bytes: [u8; 32]) -> (r: Option<EndpointId>)
        ensures
            match r {
                Some(id) => is_public_key(bytes@) && id@ == bytes@,
                None => !is_public_key(bytes@),
            },
    {
        if accepts_public_key(&bytes) {
            Some(EndpointId { bytes })
        } else {
            None
        }
    }

    /// The bytes of the public key.
    pub fn to_bytes(&self) -> (r: [u8; 32])
        ensures
            r@ == self@,
            is_public_key(self@),
    {
        proof {
            use_type_invariant(self);
        }
        self.bytes
    }

    /// The peer that a peer ID names.
    pub fn from_z32(s: &str) -> (r: Result<EndpointId, PeerIdError>)
        ensures
            match peer_of(s@) {
                Ok(k) => r matches Ok(id) && id@ == k,
                Err(e) => r == Err::<EndpointId, PeerIdError>(e),
            },
    {
        match public_key_of_text(s) {
            Ok(bytes) => {
                proof {
                    lemma_peer_of(bytes@);
                }
                Ok(EndpointId { bytes })
            },
            Err(e) => {
                proof {
                    if e is NotPublicKey {
                        let b = choose|b: Seq<u8>|
                            s@ == #[trigger] z32_text(b) && !(b.len() == 32 && is_public_key(b));
                        lemma_peer_of(b);
                    }
                }
                Err(e)
            },
        }
    }

    /// The peer ID: the public key in z-base-32.
    pub fn to_z32(&self) -> (r: String)
        ensures
            r@ == z32_text(self@),
            peer_of(r@) == Ok::<Seq<u8>, PeerIdError>(self@),
    {
        proof {
            use_type_invariant(self);
            lemma_peer_of(self@);
        }
        public_key_text(&self.bytes)
    }

    /// Whether two peers are the same.
    pub fn same(&self, other: &EndpointId) -> (r: bool)
        ensures
            r == (self@ == other@),
    {
        let mut i: usize = 0;
        while i < 32
            invariant
                i <= 32,
                forall|j: int| 0 <= j < i ==> self.bytes@[j] == other.bytes@[j],
            decreases 32 - i,
        {
            if self.bytes[i] != other.bytes[i] {
                return false;
            }
            i += 1;
        }
        proof {
            assert(self@ =~= other@);
        }
        true
    }
}

/// A secret key.
pub struct SecretKey {
    bytes: [u8; 32],
}

impl View for SecretKey {
    type V = Seq<u8>;

    closed spec fn view(&self) -> Seq<u8> {
        self.bytes@
    }
}

impl SecretKey {
    /// The secret key with these bytes.
    pub fn from_bytes(bytes: [u8; 32]) -> (r: SecretKey)
        ensures
            r@ == bytes@,
    {
        SecretKey { bytes }
    }

    /// The bytes of the secret key.
    pub fn to_bytes(&self) -> (r: [u8; 32])
        ensures
            r@ == self@,
    {
        self.bytes
    }

    /// The identity that goes with the secret key.
    pub fn public(&self) -> (r: EndpointId)
        ensures
            r@ == public_of(self@),
            is_public_key(r@),
    {
        EndpointId { bytes: public_key_of_secret(&self.bytes) }
    }
}

/// What is wrong with a key file.
#[derive(Debug)]
pub enum KeyFileError {
    /// The file of the secret key does not hold 32 bytes, but this many.
    BadLength { len: usize },
    /// The file of the authorized keys lists no key.
    NoValidKeys { path: String },
}

/// What a [`KeyFileError`] says.
pub enum KeyFileFault {
    BadLength { len: nat },
    NoValidKeys { path: Seq<char> },
}

impl View for KeyFileError {
    type V = KeyFileFault;

    open spec fn view(&self) -> KeyFileFault {
        match *self {
            KeyFileError::BadLength { len } => KeyFileFault::BadLength { len: len as nat },
            KeyFileError::NoValidKeys { path } => KeyFileFault::NoValidKeys { path: path@ },
        }
    }
}

impl KeyFileFault {
    /// What the error says.
    pub open spec fn says(self) -> Seq<char> {
        match self {
            KeyFileFault::BadLength { len } => "Invalid key file: expected 32 bytes, got "@
                + decimal_digits(len),
            KeyFileFault::NoValidKeys { path } => "authorized_keys file exists at "@ + path
                + " but contains no valid keys. Add valid z32-encoded public keys or remove the file to disable authorization."@,
        }
    }
}

impl KeyFileError {
    /// The error in words.
    pub fn message(&self) -> (r: String)
        ensures
            r@ == self@.says(),
    {
        match self {
            KeyFileError::BadLength { len } => "Invalid key file: expected 32 bytes, got ".to_owned().concat(
                number_text(*len).as_str(),
            ),
            KeyFileError::NoValidKeys { path } => "authorized_keys file exists at ".to_owned().concat(
                path.as_str(),
            ).concat(
                " but contains no valid keys. Add valid z32-encoded public keys or remove the file to disable authorization.",
            ),
        }
    }
}

/// The permissions of the file of a secret key: its owner reads and writes it.
pub const KEY_FILE_MODE: u32 = 0o600;

/// A secret key, and whether it is on disk already.
pub enum StoredKey {
    /// It was read from its file.
    Loaded { key: SecretKey },
    /// It is new, and its file is still to be written.
    Generated { key: SecretKey },
}

impl StoredKey {
    /// A new secret key with these bytes.
    pub fn generated(bytes: [u8; 32]) -> (r: StoredKey)
        ensures
            r matches StoredKey::Generated { key } && key@ == bytes@,
    {
        StoredKey::Generated { key: SecretKey::from_bytes(bytes) }
    }
}

/// The secret key in a key file.
pub open spec fn key_in_file(bytes: Seq<u8>) -> Result<Seq<u8>, KeyFileFault> {
    if bytes.len() == 32 {
        Ok(bytes)
    } else {
        Err(KeyFileFault::BadLength { len: bytes.len() })
    }
}

/// Reads the secret key from what its file holds.
pub fn decode_secret_key(bytes: &[u8]) -> (r: Result<SecretKey, KeyFileError>)
    ensures
        match key_in_file(bytes@) {
            Ok(k) => r matches Ok(key) && key@ == k,
            Err(f) => r matches Err(e) && e@ == f,
        },
{
    if bytes.len() != 32 {
        return Err(KeyFileError::BadLength { len: bytes.len() });
    }
    let mut key_bytes: [u8; 32] = [0u8; 32];
    let mut i: usize = 0;
    while i < 32
        invariant
            i <= 32,
            bytes@.len() == 32,
            forall|j: int| 0 <= j < i ==> key_bytes@[j] == bytes@[j],
        decreases 32 - i,
    {
        key_bytes[i] = bytes[i];
        i += 1;
    }
    proof {
        assert(key_bytes@ =~= bytes@);
    }
    Ok(SecretKey::from_bytes(key_bytes))
}

/// The secret key: what its file holds, or a new one where there is no file.
pub fn load_or_generate_secret_key(file: Option<&[u8]>) -> (r: Result<StoredKey, KeyFileError>)
    ensures
        match file {
            None => r matches Ok(StoredKey::Generated { .. }),
            Some(bytes) => match key_in_file(bytes@) {
                Ok(k) => r matches Ok(StoredKey::Loaded { key }) && key@ == k,
                Err(f) => r matches Err(e) && e@ == f,
            },
        },
{
    match file {
        None => Ok(StoredKey::generated(generate_secret())),
        Some(bytes) => match decode_secret_key(bytes) {
            Ok(key) => Ok(StoredKey::Loaded { key }),
            Err(e) => Err(e),
        },
    }
}

/// The peers that a server lets in.
#[derive(Debug)]
pub struct AuthorizedKeys {
    keys: Vec<EndpointId>,
}

impl View for AuthorizedKeys {
    type V = Set<Seq<u8>>;

    closed spec fn view(&self) -> Set<Seq<u8>> {
        self.ids().to_set()
    }
}

impl AuthorizedKeys {
    spec fn ids(self) -> Seq<Seq<u8>> {
        self.keys@.map_values(|id: EndpointId| id@)
    }

    /// No peer is listed twice.
    #[verifier::type_invariant]
    spec fn distinct(self) -> bool {
        self.ids().no_duplicates()
    }

    /// No peers.
    pub fn new() -> (r: AuthorizedKeys)
        ensures
            r@ == Set::<Seq<u8>>::empty(),
    {
        let r = AuthorizedKeys { keys: Vec::new() };
        proof {
            assert(r@ =~= Set::<Seq<u8>>::empty());
        }
        r
    }

    /// Whether a peer is among them.
    pub fn contains(&self, id: &EndpointId) -> (r: bool)
        ensures
            r == self@.contains(id@),
    {
        let mut i: usize = 0;
        while i < self.keys.len()
            invariant
                i <= self.keys@.len(),
                forall|j: int| 0 <= j < i ==> self.ids()[j] != id@,
            decreases self.keys@.len() - i,
        {
            if self.keys[i].same(id) {
                proof {
                    assert(self.ids()[i as int] == id@);
                }
                return true;
            }
            i += 1;
        }
        false
    }

    /// Adds a peer.
    pub fn insert(&mut self, id: EndpointId)
        ensures
            final(self)@ == old(self)@.insert(id@),
    {
        proof {
            use_type_invariant(&*self);
        }
        let ghost before = self.ids();
        if self.contains(&id) {
            proof {
                assert(self@.insert(id@) =~= self@);
            }
            return;
        }
        let mut keys: Vec<EndpointId> = Vec::new();
        std::mem::swap(&mut keys, &mut self.keys);
        keys.push(id);
        proof {
            assert(keys@.map_values(|id: EndpointId| id@) =~= before.push(id@));
            assert(before.push(id@).no_duplicates());
        }
        self.keys = keys;
        proof {
            assert(before.push(id@).to_set() =~= before.to_set().insert(id@)) by {
                assert forall|k: Seq<u8>|
                    before.to_set().insert(id@).contains(k) implies before.push(id@).contains(k) by {
                    if k == id@ {
                        assert(before.push(id@)[before.len() as int] == k);
                    } else {
                        let j = choose|j: int| 0 <= j < before.len() && before[j] == k;
                        assert(before.push(id@)[j] == k);
                    }
                }
            }
        }
    }

    /// How many there are.
    pub fn len(&self) -> (r: usize)
        ensures
            r == self@.len(),
    {
        proof {
            use_type_invariant(self);
            self.ids().unique_seq_to_set();
        }
        self.keys.len()
    }

    /// Whether there are none.
    pub fn is_empty(&self) -> (r: bool)
        ensures
            r == (self@ == Set::<Seq<u8>>::empty()),
    {
        proof {
            if self.keys@.len() == 0 {
                assert(self@ =~= Set::<Seq<u8>>::empty());
            } else {
                assert(self@.contains(self.ids()[0]));
            }
        }
        self.keys.len() == 0
    }
}

/// A line that counts: it is not empty and does not start with `#`.
pub open spec fn is_entry(line: Seq<char>) -> bool {
    line.len() > 0 && line[0] != '#'
}

/// The peer ID of `id` stands in `content`, on a line of its own (white space
/// around it does not matter).
pub open spec fn lists(content: Seq<char>, id: Seq<u8>) -> bool {
    exists|a: int, b: int| lists_at(content, a, b, id)
}

/// The line `content[a..b]` holds the peer ID of `id`.
pub open spec fn lists_at(content: Seq<char>, a: int, b: int, id: Seq<u8>) -> bool {
    &&& is_line(content, a, b)
    &&& is_entry(trim(content.subrange(a, b)))
    &&& peer_of(trim(content.subrange(a, b))) == Ok::<Seq<u8>, PeerIdError>(id)
}

/// The peers whose ID stands in `content`.
pub open spec fn listed(content: Seq<char>) -> Set<Seq<u8>> {
    Set::new(|id: Seq<u8>| lists(content, id))
}

/// The peers listed on lines that start before `end`.
spec fn listed_before(content: Seq<char>, end: int) -> Set<Seq<u8>> {
    Set::new(|id: Seq<u8>| exists|a: int, b: int| a < end && lists_at(content, a, b, id))
}

/// The peers whose ID stands in the text of an authorized keys file. Lines that
/// hold none are skipped.
pub fn read_authorized_keys(content: &str) -> (r: AuthorizedKeys)
    ensures
        r@ == listed(content@),
{
    let chars: Vec<char> = chars_of(content);
    let mut keys: AuthorizedKeys = AuthorizedKeys::new();
    let mut start: usize = 0;
    proof {
        assert(keys@ =~= listed_before(content@, 0));
    }
    loop
        invariant
            chars@ == content@,
            start <= chars@.len(),
            start == 0 || chars@[start - 1] == '\n',
            keys@ == listed_before(content@, start as int),
        decreases chars@.len() - start,
    {
        let end: usize = find_line_end(&chars, start);
        let (a, b) = trim_range(&chars, start, end);
        proof {
            assert(is_line(content@, start as int, end as int));
        }
        if a < b && chars[a] != '#' {
            match EndpointId::from_z32(content.substring_char(a, b)) {
                Ok(id) => {
                    keys.insert(id);
                },
                Err(_) => {},
            }
        }
        proof {
            lemma_line_added(content@, start as int, end as int);
            assert(keys@ =~= listed_before(content@, end + 1));
        }
        if end == chars.len() {
            proof {
                assert(keys@ =~= listed(content@));
            }
            return keys;
        }
        start = end + 1;
    }
}

/// What the line from `start` to `end` adds to what the lines before it list.
proof fn lemma_line_added(content: Seq<char>, start: int, end: int)
    requires
        is_line(content, start, end),
    ensures
        forall|id: Seq<u8>| #[trigger]
            listed_before(content, end + 1).contains(id) <==> (listed_before(
                content,
                start,
            ).contains(id) || lists_at(content, start, end, id)),
{
    assert forall|id: Seq<u8>| #[trigger]
        listed_before(content, end + 1).contains(id) implies (listed_before(content, start).contains(
        id,
    ) || lists_at(content, start, end, id)) by {
        let (a, b) = choose|a: int, b: int| a < end + 1 && lists_at(content, a, b, id);
        if a >= start {
            if a > start {
                assert(content[a - 1] == '\n');
            }
            assert(a == start);
            if b < end {
                assert(content[b] == '\n');
            }
            if end < b {
                assert(content[end] == '\n');
            }
        }
    }
    assert forall|id: Seq<u8>|
        (listed_before(content, start).contains(id) || lists_at(content, start, end, id)) implies #[trigger] listed_before(
    content, end + 1).contains(id) by {
        if listed_before(content, start).contains(id) {
            let (a, b) = choose|a: int, b: int| a < start && lists_at(content, a, b, id);
            assert(a < end + 1 && lists_at(content, a, b, id));
        }
    }
}

/// A line that counts but names no peer.
#[derive(Debug)]
pub struct InvalidEntry {
    pub text: String,
    pub error: PeerIdError,
}

/// What a line (without the white space around it) is found to be, if it counts
/// but names no peer.
pub open spec fn invalid_entry(line: Seq<char>) -> Seq<(Seq<char>, PeerIdError)> {
    match peer_of(line) {
        Err(error) if is_entry(line) => seq![(line, error)],
        _ => Seq::empty(),
    }
}

/// The lines of `content`, from the one that starts at `a` on, that count but
/// name no peer.
pub open spec fn invalid_from(content: Seq<char>, a: int) -> Seq<(Seq<char>, PeerIdError)>
    decreases content.len() - a,
    via invalid_from_decreases
{
    let b = line_end(content, a);
    if 0 <= a <= content.len() {
        invalid_entry(trim(content.subrange(a, b))) + if b < content.len() {
            invalid_from(content, b + 1)
        } else {
            Seq::empty()
        }
    } else {
        Seq::empty()
    }
}

#[via_fn]
proof fn invalid_from_decreases(content: Seq<char>, a: int) {
    if 0 <= a <= content.len() {
        lemma_line_end(content, a);
    }
}

/// What entries say.
pub open spec fn entries_view(v: Seq<InvalidEntry>) -> Seq<(Seq<char>, PeerIdError)> {
    v.map_values(|e: InvalidEntry| (e.text@, e.error))
}

/// The lines of an authorized keys file that count but name no peer, in their
/// order, with what is wrong with each.
pub fn invalid_entries(content: &str) -> (r: Vec<InvalidEntry>)
    ensures
        entries_view(r@) == invalid_from(content@, 0),
{
    let chars: Vec<char> = chars_of(content);
    let mut found: Vec<InvalidEntry> = Vec::new();
    let mut start: usize = 0;
    proof {
        assert(entries_view(found@) + invalid_from(content@, 0) =~= invalid_from(content@, 0));
    }
    loop
        invariant
            chars@ == content@,
            start <= chars@.len(),
            entries_view(found@) + invalid_from(content@, start as int) == invalid_from(
                content@,
                0,
            ),
        decreases chars@.len() - start,
    {
        let end: usize = find_line_end(&chars, start);
        let (a, b) = trim_range(&chars, start, end);
        let ghost before = entries_view(found@);
        let ghost line = trim(content@.subrange(start as int, end as int));
        if a < b && chars[a] != '#' {
            let text: &str = content.substring_char(a, b);
            match EndpointId::from_z32(text) {
                Ok(_) => {},
                Err(error) => {
                    found.push(InvalidEntry { text: text.to_owned(), error });
                },
            }
        }
        proof {
            assert(entries_view(found@) =~= before + invalid_entry(line));
            if end < chars@.len() {
                assert(entries_view(found@) + invalid_from(content@, end + 1) =~= before + (
                invalid_entry(line) + invalid_from(content@, end + 1)));
            } else {
                assert(entries_view(found@) =~= before + (invalid_entry(line) + Seq::empty()));
            }
        }
        if end == chars.len() {
            return found;
        }
        start = end + 1;
    }
}

/// The peers that the file of the authorized keys (if there is one) lets in, or
/// nothing where the file lists none.
pub open spec fn authorized(content: Option<Seq<char>>) -> Option<Set<Seq<u8>>> {
    match content {
        None => Some(Set::empty()),
        Some(text) => if listed(text) == Set::<Seq<u8>>::empty() {
            None
        } else {
            Some(listed(text))
        },
    }
}

/// The peers that a server lets in: those listed in the file of the authorized
/// keys, which stands at `path`. Without a file there are none; a file that
/// lists none is an error.
pub fn load_authorized_keys(path: &str, content: Option<&str>) -> (r: Result<
    AuthorizedKeys,
    KeyFileError,
>)
    ensures
        match authorized(opt_str(content)) {
            Some(ids) => r matches Ok(keys) && keys@ == ids,
            None => r matches Err(e) && e@ == (KeyFileFault::NoValidKeys { path: path@ }),
        },
{
    match content {
        None => Ok(AuthorizedKeys::new()),
        Some(text) => {
            let keys: AuthorizedKeys = read_authorized_keys(text);
            if keys.is_empty() {
                Err(KeyFileError::NoValidKeys { path: path.to_owned() })
            } else {
                Ok(keys)
            }
        },
    }
}

/// The code that a peer is turned away with.
pub const REJECT_CODE: u32 = 403;

/// The reason that a peer is turned away with: `unauthorized`.
pub const REJECT_REASON: [u8; 12] = [
    0x75, 0x6e, 0x61, 0x75, 0x74, 0x68, 0x6f, 0x72, 0x69, 0x7a, 0x65, 0x64,
];

/// What becomes of a connection once it is known who the peer is.
#[derive(Debug)]
pub enum HandshakeOutcome {
    Accept,
    Reject { error_code: u32, reason: Vec<u8> },
}

/// What a [`HandshakeOutcome`] says.
pub enum HandshakeView {
    Accept,
    Reject { error_code: u32, reason: Seq<u8> },
}

impl View for HandshakeOutcome {
    type V = HandshakeView;

    open spec fn view(&self) -> HandshakeView {
        match *self {
            HandshakeOutcome::Accept => HandshakeView::Accept,
            HandshakeOutcome::Reject { error_code, reason } => HandshakeView::Reject {
                error_code,
                reason: reason@,
            },
        }
    }
}

/// What becomes of a connection with `peer` where `allowed` are let in.
pub open spec fn handshake_outcome(allowed: Set<Seq<u8>>, peer: Seq<u8>) -> HandshakeView {
    if allowed.contains(peer) {
        HandshakeView::Accept
    } else {
        HandshakeView::Reject { error_code: REJECT_CODE, reason: REJECT_REASON@ }
    }
}

/// Turns away the peers that are not let in.
#[derive(Debug)]
pub struct AuthHook {
    pub allowed: AuthorizedKeys,
}

impl AuthHook {
    /// Lets these peers in, and no others.
    pub fn new(allowed: AuthorizedKeys) -> (r: AuthHook)
        ensures
            r.allowed == allowed,
    {
        AuthHook { allowed }
    }

    /// What becomes of a connection with this peer.
    pub fn after_handshake(&self, remote_id: &EndpointId) -> (r: HandshakeOutcome)
        ensures
            r@ == handshake_outcome(self.allowed@, remote_id@),
    {
        if self.allowed.contains(remote_id) {
            HandshakeOutcome::Accept
        } else {
            HandshakeOutcome::Reject {
                error_code: REJECT_CODE,
                reason: slice_to_vec(REJECT_REASON.as_slice()),
            }
        }
    }
}

/// A peer ID names the peer that it is the ID of.
pub proof fn law_peer_id_round_trip(id: Seq<u8>)
    requires
        id.len() == 32,
        is_public_key(id),
    ensures
        peer_of(z32_text(id)) == Ok::<Seq<u8>, PeerIdError>(id),
{
    lemma_peer_of(id);
}

/// Each peer has one peer ID: a text that names a peer is the z-base-32 text of
/// its public key.
pub proof fn law_one_peer_id(s: Seq<char>, id: Seq<u8>)
    requires
        peer_of(s) == Ok::<Seq<u8>, PeerIdError>(id),
    ensures
        s == z32_text(id),
        id.len() == 32,
        is_public_key(id),
{
}

/// A secret key that is written to its file is read back from it.
pub proof fn law_key_file_round_trip(key: SecretKey)
    ensures
        key_in_file(key@) == Ok::<Seq<u8>, KeyFileFault>(key@),
{
}

/// A peer is listed where its peer ID is a line of the file, once the white
/// space around that line is dropped, and nowhere else.
pub proof fn law_listed_by_peer_id(content: Seq<char>, id: Seq<u8>)
    requires
        id.len() == 32,
        is_public_key(id),
    ensures
        lists(content, id) <==> exists|a: int, b: int| #[trigger]
            is_line(content, a, b) && trim(content.subrange(a, b)) == z32_text(id),
{
    if exists|a: int, b: int| #[trigger]
        is_line(content, a, b) && trim(content.subrange(a, b)) == z32_text(id) {
        let (a, b) = choose|a: int, b: int| #[trigger]
            is_line(content, a, b) && trim(content.subrange(a, b)) == z32_text(id);
        lemma_peer_of(id);
        lemma_z32_key_text(id);
        assert(lists_at(content, a, b, id));
    }
    if lists(content, id) {
        let (a, b) = choose|a: int, b: int| lists_at(content, a, b, id);
        assert(is_line(content, a, b));
    }
}

/// The peer that a single line lists, if any.
pub open spec fn line_peer(line: Seq<char>) -> Set<Seq<u8>> {
    Set::new(
        |id: Seq<u8>|
            is_entry(trim(line)) && peer_of(trim(line)) == Ok::<Seq<u8>, PeerIdError>(id),
    )
}

/// No line that counts is passed over: each names a peer that is listed, or is
/// among the invalid entries, with what is wrong with it.
pub proof fn law_no_line_passed_over(content: Seq<char>, a: int, b: int)
    requires
        is_line(content, a, b),
        is_entry(trim(content.subrange(a, b))),
    ensures
        match peer_of(trim(content.subrange(a, b))) {
            Ok(id) => listed(content).contains(id),
            Err(error) => invalid_from(content, 0).contains(
                (trim(content.subrange(a, b)), error),
            ),
        },
{
    match peer_of(trim(content.subrange(a, b))) {
        Ok(id) => {
            assert(lists_at(content, a, b, id));
        },
        Err(error) => {
            lemma_invalid_from(content, 0, a, b);
        },
    }
}

proof fn lemma_invalid_from(content: Seq<char>, from: int, a: int, b: int)
    requires
        0 <= from <= a,
        is_line(content, a, b),
        is_entry(trim(content.subrange(a, b))),
        peer_of(trim(content.subrange(a, b))) is Err,
    ensures
        invalid_from(content, from).contains(
            (
                trim(content.subrange(a, b)),
                peer_of(trim(content.subrange(a, b)))->Err_0,
            ),
        ),
    decreases a - from,
{
    let end = line_end(content, from);
    let line = trim(content.subrange(a, b));
    let entry = (line, peer_of(line)->Err_0);
    let here = invalid_entry(trim(content.subrange(from, end)));
    lemma_line_end(content, from);
    if from == a {
        assert(end == b);
        assert(here == seq![entry]);
        assert(invalid_from(content, from)[0] == entry);
    } else {
        assert(content[a - 1] == '\n');
        lemma_invalid_from(content, end + 1, a, b);
        let rest = invalid_from(content, end + 1);
        let i = choose|i: int| 0 <= i < rest.len() && rest[i] == entry;
        assert(invalid_from(content, from) == here + rest);
        assert((here + rest)[here.len() + i] == entry);
    }
}

/// Two texts, one after the other on lines of their own, list what each of them
/// lists, and nothing else.
pub proof fn law_further_lines(first: Seq<char>, second: Seq<char>)
    ensures
        listed(first + seq!['\n'] + second) == listed(first).union(listed(second)),
{
    let all = first + seq!['\n'] + second;
    let n = first.len() as int;
    assert(all[n] == '\n');
    assert(forall|i: int| 0 <= i < n ==> all[i] == first[i]);
    assert(forall|i: int| n < i < all.len() ==> all[i] == second[i - n - 1]);
    assert forall|id: Seq<u8>| #[trigger] lists(all, id) <==> (lists(first, id) || lists(
        second,
        id,
    )) by {
        if lists(all, id) {
            let (a, b) = choose|a: int, b: int| lists_at(all, a, b, id);
            if a <= n {
                assert(b <= n);
                assert(all.subrange(a, b) == first.subrange(a, b));
                assert(lists_at(first, a, b, id));
            } else {
                let (c, d) = (a - n - 1, b - n - 1);
                assert(all.subrange(a, b) == second.subrange(c, d));
                assert forall|i: int| c <= i < d implies second[i] != '\n' by {
                    assert(all[i + n + 1] == second[i]);
                }
                assert(lists_at(second, c, d, id));
            }
        }
        if lists(first, id) {
            let (a, b) = choose|a: int, b: int| lists_at(first, a, b, id);
            assert(all.subrange(a, b) == first.subrange(a, b));
            assert(lists_at(all, a, b, id));
        }
        if lists(second, id) {
            let (c, d) = choose|a: int, b: int| lists_at(second, a, b, id);
            let (a, b) = (c + n + 1, d + n + 1);
            assert(all.subrange(a, b) == second.subrange(c, d));
            assert(lists_at(all, a, b, id));
        }
    }
    assert(listed(all) =~= listed(first).union(listed(second)));
}

/// A single line lists the peer that it names, and nothing where it is blank, is
/// a comment or names none.
pub proof fn law_single_line(line: Seq<char>)
    requires
        forall|i: int| 0 <= i < line.len() ==> line[i] != '\n',
    ensures
        listed(line) == line_peer(line),
{
    let n = line.len() as int;
    assert(line.subrange(0, n) == line);
    assert(is_line(line, 0, n));
    assert forall|id: Seq<u8>| #[trigger] lists(line, id) <==> line_peer(line).contains(id) by {
        if lists(line, id) {
            let (a, b) = choose|a: int, b: int| lists_at(line, a, b, id);
            if a > 0 {
                assert(line[a - 1] == '\n');
            }
            if b < n {
                assert(line[b] == '\n');
            }
            assert(a == 0 && b == n);
        }
        if line_peer(line).contains(id) {
            assert(lists_at(line, 0, n, id));
        }
    }
    assert(listed(line) =~= line_peer(line));
}

/// `line` is `text` with the white space `before` and `after` around it.
pub open spec fn is_padded(
    line: Seq<char>,
    text: Seq<char>,
    before: Seq<char>,
    after: Seq<char>,
) -> bool {
    line == before + text + after && is_blank(before) && is_blank(after)
}

proof fn lemma_trim_key_text(id: Seq<u8>)
    requires
        id.len() == 32,
    ensures
        trim(z32_text(id)) == z32_text(id),
{
    lemma_z32_key_text(id);
    lemma_z32_symbols(id, 0);
    lemma_z32_symbols(id, 51);
}

/// Which peer a line of the file lists: the one whose peer ID it is, with nothing
/// but white space around it; so a line that is blank, is a comment or holds
/// anything more lists none.
pub proof fn law_line_is_peer_id(line: Seq<char>, id: Seq<u8>)
    requires
        forall|i: int| 0 <= i < line.len() ==> line[i] != '\n',
    ensures
        lists(line, id) <==> id.len() == 32 && is_public_key(id) && exists|
            before: Seq<char>,
            after: Seq<char>,
        | #[trigger]
            is_padded(line, z32_text(id), before, after),
{
    law_single_line(line);
    assert(lists(line, id) <==> listed(line).contains(id));
    if lists(line, id) {
        law_one_peer_id(trim(line), id);
        let (before, after) = law_trimmed(line);
        assert(is_padded(line, z32_text(id), before, after));
    }
    if id.len() == 32 && is_public_key(id) && exists|before: Seq<char>, after: Seq<char>|
        #[trigger]
        is_padded(line, z32_text(id), before, after) {
        let (before, after) = choose|before: Seq<char>, after: Seq<char>|
            #[trigger]
            is_padded(line, z32_text(id), before, after);
        law_trim_around(before, z32_text(id), after);
        lemma_trim_key_text(id);
        law_peer_id_round_trip(id);
        lemma_z32_key_text(id);
        assert(line_peer(line).contains(id));
    }
}

/// What is reported of a line with white space around its text: nothing where
/// there is no text, where it is a comment (it starts with `#`), or where it is
/// the ID of a peer; else the text, with whether it is z-base-32 at all.
pub proof fn law_reported_line(
    line: Seq<char>,
    text: Seq<char>,
    before: Seq<char>,
    after: Seq<char>,
)
    requires
        forall|i: int| 0 <= i < line.len() ==> line[i] != '\n',
        is_padded(line, text, before, after),
        text.len() > 0 ==> !is_white_space(text[0]) && !is_white_space(text.last()),
    ensures
        text.len() == 0 || text[0] == '#' || (exists|id: Seq<u8>|
            id.len() == 32 && is_public_key(id) && text == #[trigger] z32_text(id))
            ==> invalid_from(line, 0) == Seq::<(Seq<char>, PeerIdError)>::empty(),
        !(text.len() == 0 || text[0] == '#' || (exists|id: Seq<u8>|
            id.len() == 32 && is_public_key(id) && text == #[trigger] z32_text(id)))
            ==> invalid_from(line, 0) == seq![
            (
                text,
                if exists|b: Seq<u8>| text == #[trigger] z32_text(b) {
                    PeerIdError::NotPublicKey
                } else {
                    PeerIdError::NotBase32
                },
            ),
        ],
{
    law_trim_around(before, text, after);
    assert(trim(text) == text);
    lemma_line_end(line, 0);
    assert(line_end(line, 0) == line.len());
    assert(line.subrange(0, line.len() as int) =~= line);
    assert(invalid_from(line, 0) =~= invalid_entry(text));
    if exists|id: Seq<u8>|
        id.len() == 32 && is_public_key(id) && text == #[trigger] z32_text(id) {
        let id = choose|id: Seq<u8>|
            id.len() == 32 && is_public_key(id) && text == #[trigger] z32_text(id);
        law_peer_id_round_trip(id);
    } else if exists|b: Seq<u8>| text == #[trigger] z32_text(b) {
        let b = choose|b: Seq<u8>| text == #[trigger] z32_text(b);
        lemma_peer_of(b);
    }
}

/// What is reported of two texts, one after the other on lines of their own, is
/// what is reported of the first and then what is reported of the second.
pub proof fn law_reported_in_order(first: Seq<char>, second: Seq<char>)
    ensures
        invalid_from(first + seq!['\n'] + second, 0) == invalid_from(first, 0) + invalid_from(
            second,
            0,
        ),
{
    lemma_reported_before(first, second, 0);
}

proof fn lemma_same_line_end(s: Seq<char>, a: int, b: int)
    requires
        0 <= a <= b <= s.len(),
        b == s.len() || s[b] == '\n',
        forall|i: int| a <= i < b ==> s[i] != '\n',
    ensures
        line_end(s, a) == b,
{
    lemma_line_end(s, a);
    let e = line_end(s, a);
    if e < b {
        assert(s[e] == '\n');
    }
}

proof fn lemma_reported_after(first: Seq<char>, second: Seq<char>, k: int)
    requires
        0 <= k <= second.len(),
    ensures
        invalid_from(first + seq!['\n'] + second, first.len() + 1 + k) == invalid_from(second, k),
    decreases second.len() - k,
{
    let all = first + seq!['\n'] + second;
    let n = first.len() + 1;
    lemma_line_end(second, k);
    let e = line_end(second, k);
    assert forall|i: int| n + k <= i < n + e implies all[i] != '\n' by {
        assert(all[i] == second[i - n]);
    }
    if e < second.len() {
        assert(all[n + e] == second[e]);
    }
    lemma_same_line_end(all, n + k, n + e);
    assert(all.subrange(n + k, n + e) =~= second.subrange(k, e));
    if e < second.len() {
        lemma_reported_after(first, second, e + 1);
    }
}

proof fn lemma_reported_before(first: Seq<char>, second: Seq<char>, k: int)
    requires
        0 <= k <= first.len(),
    ensures
        invalid_from(first + seq!['\n'] + second, k) == invalid_from(first, k) + invalid_from(
            second,
            0,
        ),
    decreases first.len() - k,
{
    let all = first + seq!['\n'] + second;
    let n = first.len() as int;
    lemma_line_end(first, k);
    let e = line_end(first, k);
    assert(all[n] == '\n');
    assert forall|i: int| k <= i < e implies all[i] != '\n' by {
        assert(all[i] == first[i]);
    }
    if e < n {
        assert(all[e] == first[e]);
    }
    lemma_same_line_end(all, k, e);
    assert(all.subrange(k, e) =~= first.subrange(k, e));
    let here = invalid_entry(trim(first.subrange(k, e)));
    let rest = invalid_from(second, 0);
    if e < n {
        lemma_reported_before(first, second, e + 1);
        let then = invalid_from(first, e + 1);
        assert(here + (then + rest) =~= (here + then) + rest);
    } else {
        lemma_reported_after(first, second, 0);
        assert(here + Seq::<(Seq<char>, PeerIdError)>::empty() =~= here);
    }
}

/// What is reported are the texts themselves, each with its own error, in order.
pub proof fn law_reported_entries(content: &str, r: Vec<InvalidEntry>)
    requires
        call_ensures(invalid_entries, (content,), r),
    ensures
        r@.len() == invalid_from(content@, 0).len(),
        forall|i: int|
            0 <= i < r@.len() ==> (#[trigger] r@[i]).text@ == invalid_from(content@, 0)[i].0
                && r@[i].error == invalid_from(content@, 0)[i].1,
{
    assert(entries_view(r@).len() == r@.len());
    assert forall|i: int| 0 <= i < r@.len() implies (#[trigger] r@[i]).text@ == invalid_from(
        content@,
        0,
    )[i].0 && r@[i].error == invalid_from(content@, 0)[i].1 by {
        assert(entries_view(r@)[i] == (r@[i].text@, r@[i].error));
    }
}

/// What becomes of a key file: one of 32 bytes is the key that it holds, any other
/// is an error that tells how many bytes it has, and where there is none a new key
/// is made.
pub proof fn law_key_file(file: Option<&[u8]>, r: Result<StoredKey, KeyFileError>)
    requires
        call_ensures(load_or_generate_secret_key, (file,), r),
    ensures
        file is None <==> r matches Ok(StoredKey::Generated { .. }),
        r matches Ok(StoredKey::Loaded { key }) ==> key@ == file->0@ && file->0@.len() == 32,
        file matches Some(bytes) && bytes@.len() == 32 ==> r is Ok,
        r matches Err(e) ==> (e matches KeyFileError::BadLength { len } && len
            == file->0@.len()),
{
}

/// Whom a file of authorized keys lets in: the peers that it lists and no others.
/// Without a file that is nobody in particular; a file that lists none is refused,
/// and the error names it.
pub proof fn law_authorized_keys(
    path: &str,
    content: Option<&str>,
    r: Result<AuthorizedKeys, KeyFileError>,
    id: Seq<u8>,
)
    requires
        call_ensures(load_authorized_keys, (path, content), r),
    ensures
        r matches Ok(keys) ==> (keys@.contains(id) <==> (content matches Some(text) && lists(
            text@,
            id,
        ))),
        content is None ==> r is Ok,
        content matches Some(text) && lists(text@, id) ==> r is Ok,
        content matches Some(text) && (forall|other: Seq<u8>| !lists(text@, other)) ==> r is Err,
        r matches Err(e) ==> (e matches KeyFileError::NoValidKeys { path: named } && named@
            == path@),
{
    if let Some(text) = content {
        law_refused_without_keys(text@);
        assert(listed(text@).contains(id) <==> lists(text@, id));
    }
}

/// A peer is let in if it is among those that are, and else turned away with code
/// 403 and the reason `unauthorized`.
pub proof fn law_handshake(hook: AuthHook, peer: EndpointId, r: HandshakeOutcome)
    requires
        call_ensures(AuthHook::after_handshake, (&hook, &peer), r),
    ensures
        r is Accept <==> hook.allowed@.contains(peer@),
        r matches HandshakeOutcome::Reject { error_code, reason } ==> error_code == 403 && is_text(
            reason@,
            "unauthorized"@,
        ),
{
    reveal_strlit("unauthorized");
}

/// A text is read as a peer ID where it is one, and else the error tells whether it
/// is z-base-32 at all.
pub proof fn law_peer_id_read(s: &str, r: Result<EndpointId, PeerIdError>)
    requires
        call_ensures(EndpointId::from_z32, (s,), r),
    ensures
        r matches Ok(id) ==> s@ == z32_text(id@) && id@.len() == 32 && is_public_key(id@),
        r matches Err(PeerIdError::NotBase32) ==> forall|b: Seq<u8>| s@ != #[trigger] z32_text(b),
        r matches Err(PeerIdError::NotPublicKey) ==> exists|b: Seq<u8>|
            s@ == #[trigger] z32_text(b) && !(b.len() == 32 && is_public_key(b)),
{
    if let Ok(id) = r {
        law_one_peer_id(s@, id@);
    }
}

/// The errors in words: they tell how many bytes a key file has, in decimal digits,
/// and where the file of the authorized keys is.
pub proof fn law_key_file_messages(error: KeyFileError, text: String, digits: String)
    requires
        call_ensures(KeyFileError::message, (&error,), text),
        error matches KeyFileError::BadLength { len } ==> call_ensures(
            number_text,
            (len,),
            digits,
        ),
    ensures
        error is BadLength ==> text@ == "Invalid key file: expected 32 bytes, got "@ + digits@,
        error matches KeyFileError::NoValidKeys { path } ==> text@
            == "authorized_keys file exists at "@ + path@
            + " but contains no valid keys. Add valid z32-encoded public keys or remove the file to disable authorization."@,
{
}

/// The errors of peer IDs in words.
pub proof fn law_peer_id_messages(error: PeerIdError, text: String)
    requires
        call_ensures(PeerIdError::message, (&error,), text),
    ensures
        error is NotBase32 ==> text@ == "failed to decode base32 string"@,
        error is NotPublicKey ==> text@ == "data is not a valid public key"@,
{
}

/// A file of authorized keys is refused when, and only when, it lists no peer.
pub proof fn law_refused_without_keys(content: Seq<char>)
    ensures
        authorized(Some(content)) is None <==> forall|id: Seq<u8>| !lists(content, id),
{
    if authorized(Some(content)) is None {
        assert forall|id: Seq<u8>| !lists(content, id) by {
            assert(!listed(content).contains(id));
        }
    }
    if forall|id: Seq<u8>| !lists(content, id) {
        assert(listed(content) =~= Set::<Seq<u8>>::empty());
    }
}

} // verus!
