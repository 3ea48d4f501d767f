//! Artifacts: large answers that are kept for a while as files of one directory.
use crate::clock;
use crate::digest::{sha256_hex, sha256_of};
use crate::encoding::hex;
use crate::ids::{canonical, canonical_id, hyphen_at, identified, law_identifiers_have_one_canonical_form, random_id};
use crate::span::Span;
use crate::text::{chars_of, glue};
use vstd::prelude::*;

verus! {

#[derive(Debug, Clone, Copy)]
pub struct Limits {
    pub ttl: Span,
    pub max_item_bytes: usize,
    pub max_total_bytes: usize,
}

/// An artifact that was kept.
#[derive(Debug, Clone, PartialEq, Eq)]
pub struct Stored {
    pub id: String,
    pub sha256: String,
    pub bytes: usize,
    pub expires_at_unix_seconds: u64,
}

/// A part of an artifact, with the size and the digest of the whole.
#[derive(Debug, Clone, PartialEq, Eq)]
pub struct ReadRange {
    pub bytes: Vec<u8>,
    pub total_bytes: usize,
    pub sha256: String,
}

#[derive(Debug, Clone, Copy, PartialEq, Eq, Structural)]
pub enum ArtifactError {
    IrregularRoot,
    ItemTooLarge,
    OutOfRange,
    AccountingOverflow,
    TotalReached,
    InvalidId,
    NotFound,
    NotRegular,
    TooLargeForHost,
    OffsetTooLarge,
}

impl ArtifactError {
    pub open spec fn text(self) -> Seq<char> {
        match self {
            ArtifactError::IrregularRoot => "artifact root must be a regular directory"@,
            ArtifactError::ItemTooLarge => "artifact exceeds per-item byte limit"@,
            ArtifactError::OutOfRange => "out of range integral type conversion attempted"@,
            ArtifactError::AccountingOverflow => "artifact disk accounting overflow"@,
            ArtifactError::TotalReached => "artifact store total byte limit reached"@,
            ArtifactError::InvalidId => "invalid artifact id"@,
            ArtifactError::NotFound => "artifact not found"@,
            ArtifactError::NotRegular => "artifact is not a regular file"@,
            ArtifactError::TooLargeForHost => "artifact exceeds host size"@,
            ArtifactError::OffsetTooLarge => "artifact offset exceeds content length"@,
        }
    }

    pub fn message(&self) -> (r: &'static str)
        ensures
            r@ == self.text(),
    {
        match self {
            ArtifactError::IrregularRoot => "artifact root must be a regular directory",
            ArtifactError::ItemTooLarge => "artifact exceeds per-item byte limit",
            ArtifactError::OutOfRange => "out of range integral type conversion attempted",
            ArtifactError::AccountingOverflow => "artifact disk accounting overflow",
            ArtifactError::TotalReached => "artifact store total byte limit reached",
            ArtifactError::InvalidId => "invalid artifact id",
            ArtifactError::NotFound => "artifact not found",
            ArtifactError::NotRegular => "artifact is not a regular file",
            ArtifactError::TooLargeForHost => "artifact exceeds host size",
            ArtifactError::OffsetTooLarge => "artifact offset exceeds content length",
        }
    }
}

/// What a path leads to, where a link is not followed.
#[derive(Debug, Clone, Copy, PartialEq, Eq, Structural)]
pub enum Kind {
    File,
    Directory,
    Link,
    Other,
}

/// An entry of the directory: its name, what it is, its size, and its age where one can be told.
#[derive(Debug, Clone)]
pub struct Entry {
    pub name: String,
    pub kind: Kind,
    pub bytes: u64,
    pub age: Option<Span>,
}

/// An entry as the rules go by it.
pub struct Item {
    pub name: Seq<char>,
    pub kind: Kind,
    pub bytes: u64,
    pub age: Option<nat>,
}

impl View for Entry {
    type V = Item;

    open spec fn view(&self) -> Item {
        Item {
            name: self.name@,
            kind: self.kind,
            bytes: self.bytes,
            age: match self.age {
                None => None,
                Some(age) => Some(age@),
            },
        }
    }
}

pub open spec fn items(entries: Seq<Entry>) -> Seq<Item> {
    entries.map_values(|entry: Entry| entry@)
}

/// The file goes at the next cleaning: it was never finished, or it has reached its age.
pub open spec fn doomed(item: Item, ttl: nat) -> bool {
    &&& item.kind == Kind::File
    &&& (item.name.len() > 0 && item.name[0] == '.') || (item.age matches Some(age) && age >= ttl)
}

pub open spec fn to_keep(ttl: nat) -> spec_fn(Item) -> bool {
    |item: Item| !doomed(item, ttl)
}

/// What is left after a cleaning.
pub open spec fn cleaned(dir: Seq<Item>, ttl: nat) -> Seq<Item> {
    dir.filter(to_keep(ttl))
}

/// The places of what a cleaning removes.
pub open spec fn removed(dir: Seq<Item>, ttl: nat) -> Seq<int>
    decreases dir.len(),
{
    if dir.len() == 0 {
        Seq::empty()
    } else if doomed(dir.last(), ttl) {
        removed(dir.drop_last(), ttl).push(dir.len() - 1)
    } else {
        removed(dir.drop_last(), ttl)
    }
}

/// The bytes that the files take.
pub open spec fn used(dir: Seq<Item>) -> nat
    decreases dir.len(),
{
    if dir.len() == 0 {
        0
    } else {
        used(dir.drop_last()) + if dir.last().kind == Kind::File {
            dir.last().bytes as nat
        } else {
            0
        }
    }
}

pub open spec fn too_large_for_host(item: Item) -> bool {
    item.kind == Kind::File && item.bytes > usize::MAX
}

/// Why the bytes cannot be summed up, if they cannot: the first file at which the sum fails decides.
pub open spec fn sum_fault(dir: Seq<Item>) -> Option<ArtifactError>
    decreases dir.len(),
{
    if dir.len() == 0 {
        None
    } else if sum_fault(dir.drop_last()) is Some {
        sum_fault(dir.drop_last())
    } else if too_large_for_host(dir.last()) {
        Some(ArtifactError::OutOfRange)
    } else if used(dir) > usize::MAX {
        Some(ArtifactError::AccountingOverflow)
    } else {
        None
    }
}

/// Why a new artifact of so many bytes is refused once the directory is clean, if it is.
pub open spec fn refusal(dir: Seq<Item>, bytes: nat, limits: Limits) -> Option<ArtifactError> {
    if sum_fault(dir) is Some {
        sum_fault(dir)
    } else if used(dir) + bytes > usize::MAX {
        Some(ArtifactError::AccountingOverflow)
    } else if used(dir) + bytes > limits.max_total_bytes {
        Some(ArtifactError::TotalReached)
    } else {
        None
    }
}

/// The directory of artifacts, as it was last listed. Its view are the entries in the order of the listing.
pub struct Store {
    entries: Vec<Entry>,
}

impl View for Store {
    type V = Seq<Item>;

    closed spec fn view(&self) -> Seq<Item> {
        items(self.entries@)
    }
}

/// Where a new artifact goes: the bytes into the first file, which then takes the name of the second.
#[derive(Debug)]
pub struct Placement {
    id: String,
    temporary: String,
}

impl View for Placement {
    type V = (Seq<char>, Seq<char>);

    closed spec fn view(&self) -> (Seq<char>, Seq<char>) {
        (self.id@, self.temporary@)
    }
}

/// What came of a request to keep an artifact: the places in the listing of the files to clean away, and where the
/// artifact goes, if it is kept.
#[derive(Debug)]
pub struct Put {
    pub removed: Vec<usize>,
    pub placement: Result<Placement, ArtifactError>,
}

/// What came of a request to read an artifact: the places in the listing of the files to clean away, and the name of
/// the file to read.
#[derive(Debug)]
pub struct Lookup {
    pub removed: Vec<usize>,
    pub file: Result<String, ArtifactError>,
}

fn is_partial(name: &str) -> (r: bool)
    ensures
        r == (name@.len() > 0 && name@[0] == '.'),
{
    let chars = chars_of(name);
    chars.len() > 0 && chars[0] == '.'
}

fn goes(entry: &Entry, ttl: Span) -> (r: bool)
    ensures
        r == doomed(entry@, ttl@),
{
    if entry.kind != Kind::File {
        return false;
    }
    if is_partial(&entry.name) {
        return true;
    }
    match &entry.age {
        None => false,
        Some(age) => age.reaches(&ttl),
    }
}

pub open spec fn places(list: Seq<usize>) -> Seq<int> {
    list.map_values(|place: usize| place as int)
}

/// Refuses an artifact of too many bytes.
pub fn check_item(bytes: usize, limits: Limits) -> (r: Result<(), ArtifactError>)
    ensures
        r is Ok <==> bytes <= limits.max_item_bytes,
        r matches Err(e) ==> e == ArtifactError::ItemTooLarge,
{
    if bytes > limits.max_item_bytes {
        Err(ArtifactError::ItemTooLarge)
    } else {
        Ok(())
    }
}

impl Store {
    /// The directory, if the path leads to one itself.
    pub fn new(root: Kind, entries: Vec<Entry>) -> (r: Result<Self, ArtifactError>)
        ensures
            r is Ok <==> root == Kind::Directory,
            r matches Ok(store) ==> store@ == items(entries@),
            r matches Err(e) ==> e == ArtifactError::IrregularRoot,
    {
        if root != Kind::Directory {
            return Err(ArtifactError::IrregularRoot);
        }
        Ok(Store { entries })
    }

    /// Takes out the unfinished and the expired files, and says where they stood.
    pub fn cleanup(&mut self, ttl: Span) -> (r: Vec<usize>)
        ensures
            final(self)@ == cleaned(old(self)@, ttl@),
            places(r@) == removed(old(self)@, ttl@),
    {
        let ghost start = self@;
        let mut gone: Vec<usize> = Vec::new();
        let mut kept: Vec<Entry> = Vec::new();
        let mut i: usize = 0;
        proof {
            reveal(Seq::filter);
            assert(start.take(0).filter(to_keep(ttl@)) =~= Seq::<Item>::empty());
            assert(items(kept@) =~= start.take(0).filter(to_keep(ttl@)));
            assert(places(gone@) =~= removed(start.take(0), ttl@));
        }
        while i < self.entries.len()
            invariant
                i <= self.entries.len(),
                start == items(self.entries@),
                items(kept@) == cleaned(start.take(i as int), ttl@),
                places(gone@) == removed(start.take(i as int), ttl@),
            decreases self.entries.len() - i,
        {
            let ghost before = start.take(i as int);
            let ghost upto = start.take(i + 1);
            let ghost item = self.entries@[i as int]@;
            proof {
                reveal(Seq::filter);
                assert(upto.drop_last() =~= before);
                assert(upto.last() == item);
            }
            let entry = &self.entries[i];
            if goes(entry, ttl) {
                gone.push(i);
                assert(places(gone@) =~= removed(before, ttl@).push(i as int));
            } else {
                let copy = Entry {
                    name: entry.name.clone(),
                    kind: entry.kind,
                    bytes: entry.bytes,
                    age: entry.age,
                };
                assert(copy@ == item);
                kept.push(copy);
                assert(items(kept@) =~= cleaned(before, ttl@).push(item));
            }
            i = i + 1;
        }
        assert(start.take(i as int) =~= start);
        self.entries = kept;
        gone
    }

    /// The bytes that the files take.
    pub fn total_bytes(&self) -> (r: Result<usize, ArtifactError>)
        ensures
            r is Ok <==> sum_fault(self@) is None,
            r matches Ok(total) ==> total == used(self@),
            r matches Err(e) ==> sum_fault(self@) == Some(e),
    {
        let mut total: usize = 0;
        let mut i: usize = 0;
        let ghost dir = self@;
        while i < self.entries.len()
            invariant
                i <= self.entries.len(),
                dir == items(self.entries@),
                total == used(dir.take(i as int)),
                sum_fault(dir.take(i as int)) is None,
            decreases self.entries.len() - i,
        {
            let ghost upto = dir.take(i + 1);
            assert(upto.drop_last() =~= dir.take(i as int));
            assert(upto.last() == self.entries@[i as int]@);
            let entry = &self.entries[i];
            if entry.kind == Kind::File {
                if entry.bytes > usize::MAX as u64 {
                    proof {
                        lemma_fault_stays(dir, i + 1);
                    }
                    return Err(ArtifactError::OutOfRange);
                }
                match total.checked_add(entry.bytes as usize) {
                    None => {
                        proof {
                            lemma_fault_stays(dir, i + 1);
                        }
                        return Err(ArtifactError::AccountingOverflow);
                    },
                    Some(next) => {
                        total = next;
                    },
                }
            }
            i = i + 1;
        }
        assert(dir.take(i as int) =~= dir);
        Ok(total)
    }

    /// Cleans the directory and finds a place under `id` for a new artifact, if it fits.
    pub fn put_as(&mut self, id: String, bytes: &[u8], limits: Limits) -> (r: Put)
        ensures
            bytes@.len() > limits.max_item_bytes ==> final(self)@ == old(self)@ && r.removed@.len()
                == 0 && r.placement == Err::<Placement, ArtifactError>(ArtifactError::ItemTooLarge),
            bytes@.len() <= limits.max_item_bytes ==> {
                &&& final(self)@ == cleaned(old(self)@, limits.ttl@)
                &&& places(r.removed@) == removed(old(self)@, limits.ttl@)
                &&& r.placement is Ok <==> refusal(
                    final(self)@,
                    bytes@.len(),
                    limits,
                ) is None
                &&& r.placement matches Err(e) ==> refusal(final(self)@, bytes@.len(), limits)
                    == Some(e)
                &&& r.placement matches Ok(placement) ==> placement@ == (
                    id@,
                    "."@ + id@ + ".partial"@,
                )
            },
    {
        if let Err(e) = check_item(bytes.len(), limits) {
            return Put { removed: Vec::new(), placement: Err(e) };
        }
        let removed = self.cleanup(limits.ttl);
        let placement = match self.total_bytes() {
            Err(e) => Err(e),
            Ok(total) => match total.checked_add(bytes.len()) {
                None => Err(ArtifactError::AccountingOverflow),
                Some(next) => if next > limits.max_total_bytes {
                    Err(ArtifactError::TotalReached)
                } else {
                    let temporary = glue(&glue(".", &id), ".partial");
                    Ok(Placement { id, temporary })
                },
            },
        };
        Put { removed, placement }
    }

    /// Cleans the directory and finds a place under a new identifier for an artifact, if it fits.
    pub fn put(&mut self, bytes: &[u8], limits: Limits) -> (r: Put)
        ensures
            bytes@.len() > limits.max_item_bytes ==> final(self)@ == old(self)@ && r.removed@.len()
                == 0 && r.placement == Err::<Placement, ArtifactError>(ArtifactError::ItemTooLarge),
            bytes@.len() <= limits.max_item_bytes ==> {
                &&& final(self)@ == cleaned(old(self)@, limits.ttl@)
                &&& places(r.removed@) == removed(old(self)@, limits.ttl@)
                &&& r.placement is Ok <==> refusal(
                    final(self)@,
                    bytes@.len(),
                    limits,
                ) is None
                &&& r.placement matches Err(e) ==> refusal(final(self)@, bytes@.len(), limits)
                    == Some(e)
                &&& r.placement matches Ok(placement) ==> canonical(placement@.0) && placement@.1
                    == "."@ + placement@.0 + ".partial"@
            },
    {
        let id = random_id();
        self.put_as(id, bytes, limits)
    }

    /// The name of the file that holds the artifact `id`.
    pub fn path_for(&self, id: &str) -> (r: Result<String, ArtifactError>)
        ensures
            r is Ok <==> identified(id@) is Some,
            r matches Ok(name) ==> identified(id@) == Some(name@),
            r matches Err(e) ==> e == ArtifactError::InvalidId,
    {
        match canonical_id(id) {
            None => Err(ArtifactError::InvalidId),
            Some(name) => Ok(name),
        }
    }

    /// Cleans the directory and names the file that holds the artifact `id`.
    pub fn read(&mut self, id: &str, limits: Limits) -> (r: Lookup)
        ensures
            final(self)@ == cleaned(old(self)@, limits.ttl@),
            places(r.removed@) == removed(old(self)@, limits.ttl@),
            r.file is Ok <==> identified(id@) is Some,
            r.file matches Ok(name) ==> identified(id@) == Some(name@),
            r.file matches Err(e) ==> e == ArtifactError::InvalidId,
    {
        let removed = self.cleanup(limits.ttl);
        Lookup { removed, file: self.path_for(id) }
    }
}

proof fn lemma_fault_stays(dir: Seq<Item>, n: int)
    requires
        0 <= n <= dir.len(),
        sum_fault(dir.take(n)) is Some,
    ensures
        sum_fault(dir) == sum_fault(dir.take(n)),
    decreases dir.len() - n,
{
    if n < dir.len() {
        assert(dir.take(n + 1).drop_last() =~= dir.take(n));
        lemma_fault_stays(dir, n + 1);
    } else {
        assert(dir.take(n) =~= dir);
    }
}

/// The time in seconds at which an artifact that is kept at `now` expires.
pub open spec fn expiry(now: u64, ttl: nat) -> u64 {
    if now + ttl / 1_000_000_000 <= u64::MAX {
        (now + ttl / 1_000_000_000) as u64
    } else {
        u64::MAX
    }
}

/// What is told of an artifact that was kept.
pub open spec fn describes(stored: Stored, id: Seq<char>, bytes: Seq<u8>, ttl: nat, now: u64) -> bool {
    &&& stored.id@ == id
    &&& stored.sha256@ == hex(sha256_of(bytes))
    &&& stored.bytes == bytes.len()
    &&& stored.expires_at_unix_seconds == expiry(now, ttl)
}

impl Placement {
    /// The name of the finished file, which is the artifact's identifier.
    pub fn id(&self) -> (r: &str)
        ensures
            r@ == self@.0,
    {
        &self.id
    }

    /// The name of the file that is being written.
    pub fn temporary(&self) -> (r: &str)
        ensures
            r@ == self@.1,
    {
        &self.temporary
    }

    /// What is told of the artifact once it is kept, at the time `now`.
    pub fn stored_at(self, bytes: &[u8], limits: Limits, now: u64) -> (r: Stored)
        ensures
            describes(r, self@.0, bytes@, limits.ttl@, now),
    {
        Stored {
            id: self.id,
            sha256: sha256_hex(bytes),
            bytes: bytes.len(),
            expires_at_unix_seconds: now.saturating_add(limits.ttl.as_secs()),
        }
    }

    /// What is told of the artifact once it is kept.
    pub fn stored(self, bytes: &[u8], limits: Limits) -> (r: Stored)
        ensures
            exists|now: u64| #[trigger] describes(r, self@.0, bytes@, limits.ttl@, now),
    {
        let now: u64 = clock::unix_seconds();
        self.stored_at(bytes, limits, now)
    }
}

/// The bytes that a read hands out: no more than asked for, than the limit on one artifact, and than there are.
pub open spec fn range_len(total: nat, offset: nat, limit: nat, max_item_bytes: nat) -> int {
    let wanted = if limit < max_item_bytes {
        limit
    } else {
        max_item_bytes
    };
    if wanted < total - offset {
        wanted as int
    } else {
        total - offset
    }
}

/// Why the file cannot be read from the offset on, if it cannot.
pub open spec fn read_fault(found: Option<(Kind, u64)>, offset: usize) -> Option<ArtifactError> {
    match found {
        None => Some(ArtifactError::NotFound),
        Some((kind, bytes)) => if kind != Kind::File {
            Some(ArtifactError::NotRegular)
        } else if bytes > usize::MAX {
            Some(ArtifactError::TooLargeForHost)
        } else if offset > bytes {
            Some(ArtifactError::OffsetTooLarge)
        } else {
            None
        },
    }
}

/// How many bytes are read of a file, of which is known what it is and how long.
pub fn plan_read(found: Option<(Kind, u64)>, offset: usize, limit: usize, limits: Limits) -> (r: Result<
    usize,
    ArtifactError,
>)
    ensures
        r is Ok <==> read_fault(found, offset) is None,
        r matches Err(e) ==> read_fault(found, offset) == Some(e),
        r matches Ok(n) ==> n == range_len(
            (found->0).1 as nat,
            offset as nat,
            limit as nat,
            limits.max_item_bytes as nat,
        ),
        r matches Ok(n) ==> found matches Some((kind, bytes)) && kind == Kind::File && n <= limit && n
            <= limits.max_item_bytes && offset + n <= bytes && (n == limit || n
            == limits.max_item_bytes || offset + n == bytes),
{
    match found {
        None => Err(ArtifactError::NotFound),
        Some((kind, bytes)) => {
            if kind != Kind::File {
                return Err(ArtifactError::NotRegular);
            }
            if bytes > usize::MAX as u64 {
                return Err(ArtifactError::TooLargeForHost);
            }
            let total: usize = bytes as usize;
            if offset > total {
                return Err(ArtifactError::OffsetTooLarge);
            }
            let wanted: usize = if limit < limits.max_item_bytes {
                limit
            } else {
                limits.max_item_bytes
            };
            if wanted < total - offset {
                Ok(wanted)
            } else {
                Ok(total - offset)
            }
        },
    }
}

/// The part of the content that a read hands out, with the size and the digest of the whole.
pub fn read_range(content: &[u8], offset: usize, limit: usize, limits: Limits) -> (r: Result<
    ReadRange,
    ArtifactError,
>)
    ensures
        r is Ok <==> offset <= content@.len(),
        r matches Err(e) ==> e == ArtifactError::OffsetTooLarge,
        r matches Ok(range) ==> {
            &&& range.bytes@ == content@.subrange(
                offset as int,
                offset + range_len(
                    content@.len(),
                    offset as nat,
                    limit as nat,
                    limits.max_item_bytes as nat,
                ),
            )
            &&& range.bytes@.len() <= limit
            &&& range.bytes@.len() <= limits.max_item_bytes
            &&& range.bytes@.len() == limit || range.bytes@.len() == limits.max_item_bytes || offset
                + range.bytes@.len() == content@.len()
            &&& range.total_bytes == content@.len()
            &&& range.sha256@ == hex(sha256_of(content@))
        },
{
    let total: usize = content.len();
    let count: usize = plan_read(Some((Kind::File, total as u64)), offset, limit, limits)?;
    let mut bytes: Vec<u8> = Vec::new();
    let mut i: usize = 0;
    while i < count
        invariant
            i <= count,
            offset + count <= total,
            total == content@.len(),
            bytes@ == content@.subrange(offset as int, offset + i),
        decreases count - i,
    {
        bytes.push(content[offset + i]);
        assert(bytes@ =~= content@.subrange(offset as int, offset + i + 1));
        i = i + 1;
    }
    Ok(ReadRange { bytes, total_bytes: total, sha256: sha256_hex(content) })
}

/// An artifact can be read back: its identifier leads to the file that it was kept in, and a read of that file from
/// any offset gives the bytes from there on, all of them where the limits allow that, with their number and their
/// digest as told when the artifact was kept.
pub proof fn law_reads_give_back_what_was_kept(
    id: Seq<char>,
    bytes: Seq<u8>,
    stored: Stored,
    ttl: nat,
    now: u64,
    offset: nat,
    limit: nat,
    max_item_bytes: nat,
)
    requires
        canonical(id),
        describes(stored, id, bytes, ttl, now),
        offset <= bytes.len(),
    ensures
        identified(stored.id@) == Some(id),
        ({
            let count = range_len(bytes.len(), offset, limit, max_item_bytes);
            let given = bytes.subrange(offset as int, offset + count);
            &&& 0 <= count <= bytes.len() - offset
            &&& given == bytes.skip(offset as int).take(count)
            &&& bytes.len() - offset <= limit && bytes.len() - offset <= max_item_bytes
                ==> given == bytes.skip(offset as int)
        }),
        stored.bytes == bytes.len(),
        stored.sha256@ == hex(sha256_of(bytes)),
{
    law_identifiers_have_one_canonical_form(id);
}

/// What reads give that go on from where the last one ended, from the offset to the end of the content.
pub open spec fn read_on(bytes: Seq<u8>, offset: nat, limit: nat, max_item_bytes: nat) -> Seq<u8>
    decreases bytes.len() - offset,
{
    let count = range_len(bytes.len(), offset, limit, max_item_bytes);
    if offset >= bytes.len() || count <= 0 {
        Seq::empty()
    } else {
        bytes.subrange(offset as int, offset + count) + read_on(
            bytes,
            (offset + count) as nat,
            limit,
            max_item_bytes,
        )
    }
}

/// Reads that go on from where the last one ended give back the whole, however little each of them hands out.
pub proof fn law_successive_reads_give_back_the_whole(
    bytes: Seq<u8>,
    offset: nat,
    limit: nat,
    max_item_bytes: nat,
)
    requires
        offset <= bytes.len(),
        limit > 0,
        max_item_bytes > 0,
    ensures
        read_on(bytes, offset, limit, max_item_bytes) == bytes.skip(offset as int),
    decreases bytes.len() - offset,
{
    if offset < bytes.len() {
        let count = range_len(bytes.len(), offset, limit, max_item_bytes);
        law_successive_reads_give_back_the_whole(
            bytes,
            (offset + count) as nat,
            limit,
            max_item_bytes,
        );
        assert(bytes.skip(offset as int) =~= bytes.subrange(offset as int, offset + count)
            + bytes.skip(offset + count));
    } else {
        assert(bytes.skip(offset as int) =~= Seq::<u8>::empty());
    }
}

/// What is kept stays within the limit on all artifacts together, and on each.
pub proof fn law_total_stays_within_the_limit(
    dir: Seq<Item>,
    new: Item,
    bytes: nat,
    limits: Limits,
)
    requires
        refusal(dir, bytes, limits) is None,
        new.kind == Kind::File,
        new.bytes == bytes,
    ensures
        used(dir.push(new)) <= limits.max_total_bytes,
{
    assert(dir.push(new).drop_last() =~= dir);
}

/// No identifier leads out of the directory: the names of the files are made of hexadecimal digits and hyphens.
pub proof fn law_identifiers_stay_in_the_directory(id: Seq<char>)
    ensures
        identified(id) matches Some(name) ==> name.len() == 36 && !name.contains('/')
            && !name.contains('.') && !name.contains('\\') && !name.contains('\0'),
{
    law_identifiers_have_one_canonical_form(id);
    if identified(id) is Some {
        let name = identified(id)->0;
        assert forall|i: int| 0 <= i < name.len() implies name[i] != '/' && name[i] != '.'
            && name[i] != '\\' && name[i] != '\0' by {
            if hyphen_at(i) {
                assert(name[i] == '-');
            }
        }
    }
}

/// A cleaning removes the unfinished and expired files and nothing else.
pub proof fn law_cleaning_is_exact(dir: Seq<Item>, ttl: nat, i: int)
    requires
        0 <= i < dir.len(),
    ensures
        cleaned(dir, ttl).contains(dir[i]) <==> !doomed(dir[i], ttl),
        removed(dir, ttl).contains(i) <==> doomed(dir[i], ttl),
        cleaned(dir, ttl).len() + removed(dir, ttl).len() == dir.len(),
{
    broadcast use Seq::lemma_filter_pred, Seq::lemma_filter_contains;

    let kept = cleaned(dir, ttl);
    if kept.contains(dir[i]) {
        let j = choose|j: int| 0 <= j < kept.len() && kept[j] == dir[i];
        assert(to_keep(ttl)(kept[j]));
    }
    if !doomed(dir[i], ttl) {
        assert(to_keep(ttl)(dir[i]));
    }
    lemma_removed(dir, ttl);
}

proof fn lemma_removed(dir: Seq<Item>, ttl: nat)
    ensures
        cleaned(dir, ttl).len() + removed(dir, ttl).len() == dir.len(),
        forall|i: int| #[trigger]
            removed(dir, ttl).contains(i) <==> 0 <= i < dir.len() && doomed(dir[i], ttl),
    decreases dir.len(),
{
    reveal(Seq::filter);
    if dir.len() > 0 {
        let rest = dir.drop_last();
        lemma_removed(rest, ttl);
        let all = removed(dir, ttl);
        assert forall|i: int| #[trigger] all.contains(i) <==> 0 <= i < dir.len() && doomed(
            dir[i],
            ttl,
        ) by {
            if all.contains(i) {
                let j = choose|j: int| 0 <= j < all.len() && all[j] == i;
                if j < removed(rest, ttl).len() {
                    assert(removed(rest, ttl)[j] == i);
                    assert(removed(rest, ttl).contains(i));
                }
            }
            if 0 <= i < dir.len() && doomed(dir[i], ttl) {
                if i < rest.len() {
                    assert(rest[i] == dir[i]);
                    assert(removed(rest, ttl).contains(i));
                    let j = choose|j: int|
                        0 <= j < removed(rest, ttl).len() && removed(rest, ttl)[j] == i;
                    assert(all[j] == i);
                } else {
                    assert(all[all.len() - 1] == i);
                }
            }
        }
    }
}

/// With no time to live every file goes whose age can be told.
pub proof fn law_no_time_to_live_clears_the_directory(dir: Seq<Item>, i: int)
    requires
        0 <= i < dir.len(),
        dir[i].kind == Kind::File,
        dir[i].age is Some,
    ensures
        !cleaned(dir, 0).contains(dir[i]),
{
    law_cleaning_is_exact(dir, 0, i);
}

/// A finished artifact is not taken for an unfinished one: it goes only when it has reached its age.
pub proof fn law_finished_artifacts_live_their_time(item: Item, ttl: nat)
    requires
        canonical(item.name),
        item.age matches Some(age) ==> age < ttl,
    ensures
        !doomed(item, ttl),
{
    assert(!hyphen_at(0));
    assert(item.name[0] != '.');
}

/// An entry is shown in every part, and a listing entry by entry.
pub proof fn law_entries_are_shown_in_every_part(entries: Seq<Entry>, i: int)
    requires
        0 <= i < entries.len(),
    ensures
        items(entries).len() == entries.len(),
        items(entries)[i].name == entries[i].name@,
        items(entries)[i].kind == entries[i].kind,
        items(entries)[i].bytes == entries[i].bytes,
        match entries[i].age {
            None => items(entries)[i].age is None,
            Some(age) => items(entries)[i].age == Some(age@),
        },
{
}

/// A cleaning takes the files whose names begin with a dot and those that are as old as they may become. It leaves all
/// else in its order, and tells the places of what it took in their order.
pub proof fn law_cleaning_goes_by_name_and_age(dir: Seq<Item>, ttl: nat)
    ensures
        cleaned(dir, ttl) == dir.filter(
            |item: Item|
                item.kind != Kind::File || {
                    &&& item.name.len() == 0 || item.name[0] != '.'
                    &&& item.age matches Some(age) ==> age < ttl
                },
        ),
        forall|i: int| #[trigger]
            removed(dir, ttl).contains(i) <==> {
                &&& 0 <= i < dir.len()
                &&& dir[i].kind == Kind::File
                &&& dir[i].name.len() > 0 && dir[i].name[0] == '.' || (dir[i].age matches Some(age)
                    && ttl <= age)
            },
        forall|i: int, j: int|
            0 <= i < j < removed(dir, ttl).len() ==> #[trigger] removed(dir, ttl)[i]
                < #[trigger] removed(dir, ttl)[j],
{
    let stays = |item: Item|
        item.kind != Kind::File || {
            &&& item.name.len() == 0 || item.name[0] != '.'
            &&& item.age matches Some(age) ==> age < ttl
        };
    assert(to_keep(ttl) =~= stays);
    lemma_removed(dir, ttl);
    lemma_removed_in_order(dir, ttl);
}

proof fn lemma_removed_in_order(dir: Seq<Item>, ttl: nat)
    ensures
        forall|i: int, j: int|
            0 <= i < j < removed(dir, ttl).len() ==> #[trigger] removed(dir, ttl)[i]
                < #[trigger] removed(dir, ttl)[j],
        forall|i: int|
            0 <= i < removed(dir, ttl).len() ==> #[trigger] removed(dir, ttl)[i] < dir.len(),
    decreases dir.len(),
{
    if dir.len() > 0 {
        let rest = removed(dir.drop_last(), ttl);
        lemma_removed_in_order(dir.drop_last(), ttl);
        assert forall|i: int| 0 <= i < removed(dir, ttl).len() implies #[trigger] removed(dir, ttl)[i]
            < dir.len() by {
            if i < rest.len() {
                assert(removed(dir, ttl)[i] == rest[i]);
            }
        }
        assert forall|i: int, j: int| 0 <= i < j < removed(dir, ttl).len() implies #[trigger] removed(
            dir,
            ttl,
        )[i] < #[trigger] removed(dir, ttl)[j] by {
            assert(removed(dir, ttl)[i] == rest[i]);
            if j < rest.len() {
                assert(removed(dir, ttl)[j] == rest[j]);
            }
        }
    }
}

/// The bytes of all files are summed up, and of nothing but files.
pub proof fn law_the_bytes_of_files_are_summed_up(dir: Seq<Item>, item: Item)
    ensures
        used(Seq::<Item>::empty()) == 0,
        item.kind == Kind::File ==> used(dir.push(item)) == used(dir) + item.bytes,
        item.kind != Kind::File ==> used(dir.push(item)) == used(dir),
{
    assert(dir.push(item).drop_last() =~= dir);
}

proof fn lemma_sums(dir: Seq<Item>)
    ensures
        sum_fault(dir) is None <==> used(dir) <= usize::MAX,
    decreases dir.len(),
{
    if dir.len() > 0 {
        lemma_sums(dir.drop_last());
    }
}

/// An artifact finds room exactly if the files and it together take no more bytes than the limit on all of them and
/// than can be counted.
pub proof fn law_artifacts_are_kept_while_there_is_room(dir: Seq<Item>, bytes: nat, limits: Limits)
    ensures
        refusal(dir, bytes, limits) is None <==> used(dir) + bytes <= limits.max_total_bytes,
        refusal(dir, bytes, limits) == Some(ArtifactError::TotalReached) <==> limits.max_total_bytes
            < used(dir) + bytes <= usize::MAX,
{
    lemma_sums(dir);
    lemma_sum_faults(dir);
}

proof fn lemma_sum_faults(dir: Seq<Item>)
    ensures
        sum_fault(dir) matches Some(fault) ==> fault == ArtifactError::OutOfRange || fault
            == ArtifactError::AccountingOverflow,
    decreases dir.len(),
{
    if dir.len() > 0 {
        lemma_sum_faults(dir.drop_last());
    }
}

/// Where the bytes cannot be counted, the first file at which the count fails decides what is told: that it is too
/// large by itself, or that it is too much together with those before it.
pub proof fn law_the_first_file_that_cannot_be_counted_is_told(
    dir: Seq<Item>,
    n: int,
    bytes: nat,
    limits: Limits,
)
    requires
        0 <= n < dir.len(),
        used(dir.take(n)) <= usize::MAX < used(dir.take(n + 1)),
    ensures
        refusal(dir, bytes, limits) == Some(
            if dir[n].bytes > usize::MAX {
                ArtifactError::OutOfRange
            } else {
                ArtifactError::AccountingOverflow
            },
        ),
{
    lemma_sums(dir.take(n));
    assert(dir.take(n + 1).drop_last() =~= dir.take(n));
    assert(dir.take(n + 1).last() == dir[n]);
    lemma_fault_stays(dir, n + 1);
}

/// A file is read exactly if it is there, is a regular file that the host can hold, and reaches to the offset.
pub proof fn law_regular_files_are_read_from_within(found: Option<(Kind, u64)>, offset: usize)
    ensures
        read_fault(found, offset) is None <==> (found matches Some((kind, bytes)) && kind == Kind::File
            && offset <= bytes <= usize::MAX),
        read_fault(found, offset) == Some(ArtifactError::NotFound) <==> found is None,
        read_fault(found, offset) == Some(ArtifactError::NotRegular) <==> (found matches Some((kind, _))
            && kind != Kind::File),
        read_fault(found, offset) == Some(ArtifactError::TooLargeForHost) <==> (found matches Some(
            (kind, bytes),
        ) && kind == Kind::File && usize::MAX < bytes),
        read_fault(found, offset) == Some(ArtifactError::OffsetTooLarge) <==> (found matches Some(
            (kind, bytes),
        ) && kind == Kind::File && bytes <= usize::MAX && bytes < offset),
{
}

/// An artifact that is kept at some time expires when its time to live has passed, in whole seconds; where that is more
/// than can be told, at the latest time that can.
pub proof fn law_artifacts_expire_after_their_time(
    stored: Stored,
    id: Seq<char>,
    bytes: Seq<u8>,
    ttl: nat,
    now: u64,
)
    requires
        describes(stored, id, bytes, ttl, now),
    ensures
        stored.expires_at_unix_seconds <= now + ttl / 1_000_000_000,
        stored.expires_at_unix_seconds == now + ttl / 1_000_000_000
            || stored.expires_at_unix_seconds == u64::MAX,
{
}

/// What is told of each error.
pub proof fn law_artifact_errors_are_told_in_words(error: ArtifactError)
    ensures
        match error {
            ArtifactError::IrregularRoot => error.text()
                == "artifact root must be a regular directory"@,
            ArtifactError::ItemTooLarge => error.text() == "artifact exceeds per-item byte limit"@,
            ArtifactError::OutOfRange => error.text()
                == "out of range integral type conversion attempted"@,
            ArtifactError::AccountingOverflow => error.text()
                == "artifact disk accounting overflow"@,
            ArtifactError::TotalReached => error.text()
                == "artifact store total byte limit reached"@,
            ArtifactError::InvalidId => error.text() == "invalid artifact id"@,
            ArtifactError::NotFound => error.text() == "artifact not found"@,
            ArtifactError::NotRegular => error.text() == "artifact is not a regular file"@,
            ArtifactError::TooLargeForHost => error.text() == "artifact exceeds host size"@,
            ArtifactError::OffsetTooLarge => error.text()
                == "artifact offset exceeds content length"@,
        },
{
}

} // verus!
