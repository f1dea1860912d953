//! The reference numbers of long messages: no two messages between the same numbers carry the
//! same one at a time, nor for a while after.
use std::hash::{BuildHasher, DefaultHasher, Hasher, RandomState};

use vstd::prelude::*;
use vstd::std_specs::hash::DefaultHasherAdditionalSpecFns;

use crate::octets::text_field;
use crate::pdu::texts;

verus! {

/// How many buckets the pairs of source and destination are spread over.
pub const UDH_REFERENCE_BUCKET_COUNT: usize = 4096;

/// How long a reference that went on air is kept from coming back, in nanoseconds, where the
/// caller does not say.
pub const DEFAULT_UDH_REFERENCE_COOLDOWN: u128 = 300_000_000_000;

/// The longest that a reference can be kept from coming back, in nanoseconds.
pub const MAX_UDH_REFERENCE_COOLDOWN: u128 = 86_400_000_000_000;

/// The width of an address field.
pub const ADDRESS_WIDTH: usize = 21;

/// What a bucket holds: the references in use, those that cool down, and when some of these are
/// cool.
#[verifier::ext_equal]
pub struct BucketView {
    pub active: Set<u8>,
    pub cooling: Set<u8>,
    pub cooldowns: Seq<(u128, u8)>,
}

/// The references of the pairs of numbers that share a bucket.
struct UdhReferenceBucket {
    active: [u64; 4],
    cooling: [u64; 4],
    cooldowns: Vec<(u128, u8)>,
}

/// The references of all pairs of numbers.
pub struct UdhReferencePool {
    buckets: Vec<UdhReferenceBucket>,
    seed: u64,
}

/// The right to use one reference towards the numbers of one message.
#[derive(Debug)]
pub struct UdhReferenceLease {
    bucket_ids: Vec<usize>,
    reference: u8,
    cooldown: u128,
    exposed: bool,
}

// ---- bitmaps ----

/// Whether the bit of a reference is set.
spec fn in_bitmap(bitmap: Seq<u64>, reference: u8) -> bool {
    bitmap[reference as int / 64] & (1u64 << (reference % 64) as u64) != 0
}

/// The references whose bits are set.
spec fn bitmap_set(bitmap: Seq<u64>) -> Set<u8> {
    Set::new(|r: u8| in_bitmap(bitmap, r))
}

proof fn set_bit(word: u64, a: u64, b: u64)
    by (bit_vector)
    requires
        a < 64,
        b < 64,
    ensures
        ((word | (1u64 << a)) & (1u64 << b) != 0) == (a == b || word & (1u64 << b) != 0),
{
}

proof fn clear_bit(word: u64, a: u64, b: u64)
    by (bit_vector)
    requires
        a < 64,
        b < 64,
    ensures
        ((word & !(1u64 << a)) & (1u64 << b) != 0) == (a != b && word & (1u64 << b) != 0),
{
}

proof fn zero_bit(b: u64)
    by (bit_vector)
    requires
        b < 64,
    ensures
        0u64 & (1u64 << b) == 0,
{
}

proof fn either_bit(left: u64, right: u64, b: u64)
    by (bit_vector)
    requires
        b < 64,
    ensures
        ((left | right) & (1u64 << b) != 0) == (left & (1u64 << b) != 0 || right & (1u64 << b)
            != 0),
{
}

/// The word and the mask of a reference.
fn udh_reference_position(reference: u8) -> (position: (usize, u64))
    ensures
        position.0 == reference / 64,
        position.0 < 4,
        position.1 == 1u64 << (reference % 64) as u64,
{
    ((reference / 64) as usize, 1u64 << (reference % 64) as u64)
}

/// Sets the bit of a reference.
fn set_udh_reference(bitmap: &mut [u64; 4], reference: u8)
    ensures
        bitmap_set(final(bitmap)@) == bitmap_set(old(bitmap)@).insert(reference),
{
    let ghost before = bitmap@;
    let (word, mask): (usize, u64) = udh_reference_position(reference);
    bitmap[word] = bitmap[word] | mask;
    assert forall|r: u8|
        bitmap_set(bitmap@).contains(r) == bitmap_set(before).insert(reference).contains(r) by {
        set_bit(before[r as int / 64], (reference % 64) as u64, (r % 64) as u64);
    }
    assert(bitmap_set(bitmap@) =~= bitmap_set(before).insert(reference));
}

/// Clears the bit of a reference.
fn clear_udh_reference(bitmap: &mut [u64; 4], reference: u8)
    ensures
        bitmap_set(final(bitmap)@) == bitmap_set(old(bitmap)@).remove(reference),
{
    let ghost before = bitmap@;
    let (word, mask): (usize, u64) = udh_reference_position(reference);
    bitmap[word] = bitmap[word] & !mask;
    assert forall|r: u8|
        bitmap_set(bitmap@).contains(r) == bitmap_set(before).remove(reference).contains(r) by {
        clear_bit(before[r as int / 64], (reference % 64) as u64, (r % 64) as u64);
    }
    assert(bitmap_set(bitmap@) =~= bitmap_set(before).remove(reference));
}

// ---- buckets ----

/// Whether a reference is cool at `now`.
pub open spec fn cool(cooldowns: Seq<(u128, u8)>, reference: u8, now: u128) -> bool {
    exists|i: int|
        0 <= i < cooldowns.len() && (#[trigger] cooldowns[i]).0 <= now && cooldowns[i].1
            == reference
}

/// Whether no reference has two cooldowns.
pub open spec fn one_each(cooldowns: Seq<(u128, u8)>) -> bool {
    forall|i: int, j: int|
        0 <= i < j < cooldowns.len() ==> (#[trigger] cooldowns[i]).1 != (#[trigger] cooldowns[j]).1
}

/// The cooldowns that still run at `now`.
pub open spec fn running(cooldowns: Seq<(u128, u8)>, now: u128) -> Seq<(u128, u8)>
    decreases cooldowns.len(),
{
    if cooldowns.len() == 0 {
        seq![]
    } else if cooldowns.last().0 > now {
        running(cooldowns.drop_last(), now).push(cooldowns.last())
    } else {
        running(cooldowns.drop_last(), now)
    }
}

impl BucketView {
    /// A reference is not in use and cooling at once, and only what cools has a cooldown, and no
    /// more than one.
    pub open spec fn wf(self) -> bool {
        &&& forall|r: u8|
            #![trigger self.active.contains(r)]
            #![trigger self.cooling.contains(r)]
            !(self.active.contains(r) && self.cooling.contains(r))
        &&& forall|i: int|
            0 <= i < self.cooldowns.len() ==> self.cooling.contains(
                (#[trigger] self.cooldowns[i]).1,
            )
        &&& one_each(self.cooldowns)
    }

    /// Whether a reference is in use or cools down.
    pub open spec fn taken(self, reference: u8) -> bool {
        self.active.contains(reference) || self.cooling.contains(reference)
    }

    /// Whether a reference is in use, or cools down and is not cool at `now`.
    pub open spec fn held(self, reference: u8, now: u128) -> bool {
        self.active.contains(reference) || (self.cooling.contains(reference) && !cool(
            self.cooldowns,
            reference,
            now,
        ))
    }

    /// The bucket without what is cool at `now`.
    pub open spec fn purged(self, now: u128) -> BucketView {
        BucketView {
            active: self.active,
            cooling: Set::new(
                |r: u8| self.cooling.contains(r) && !cool(self.cooldowns, r, now),
            ),
            cooldowns: running(self.cooldowns, now),
        }
    }

    /// The bucket with one more reference in use.
    pub open spec fn using(self, reference: u8) -> BucketView {
        BucketView { active: self.active.insert(reference), ..self }
    }

    /// The bucket when a reference is given up: one that went on air cools down, until `deadline`
    /// if there is one.
    pub open spec fn without(
        self,
        reference: u8,
        exposed: bool,
        deadline: Option<u128>,
    ) -> BucketView {
        BucketView {
            active: self.active.remove(reference),
            cooling: if exposed {
                self.cooling.insert(reference)
            } else {
                self.cooling
            },
            cooldowns: match deadline {
                Some(at) if exposed => self.cooldowns.push((at, reference)),
                _ => self.cooldowns,
            },
        }
    }
}

impl View for UdhReferenceBucket {
    type V = BucketView;

    closed spec fn view(&self) -> BucketView {
        BucketView {
            active: bitmap_set(self.active@),
            cooling: bitmap_set(self.cooling@),
            cooldowns: self.cooldowns@,
        }
    }
}

impl UdhReferenceBucket {
    /// A bucket with nothing in use.
    fn new() -> (bucket: UdhReferenceBucket)
        ensures
            bucket@ == (BucketView {
                active: Set::empty(),
                cooling: Set::empty(),
                cooldowns: Seq::empty(),
            }),
    {
        let bucket: UdhReferenceBucket = UdhReferenceBucket {
            active: [0u64; 4],
            cooling: [0u64; 4],
            cooldowns: Vec::new(),
        };
        assert forall|r: u8| !in_bitmap(bucket.active@, r) && !in_bitmap(bucket.cooling@, r) by {
            zero_bit((r % 64) as u64);
        }
        assert(bitmap_set(bucket.active@) =~= Set::empty());
        assert(bitmap_set(bucket.cooling@) =~= Set::empty());
        bucket
    }
}

/// Whether a reference is in use or cools down.
fn udh_reference_is_set(bucket: &UdhReferenceBucket, reference: u8) -> (set: bool)
    ensures
        set == bucket@.taken(reference),
{
    let (word, mask): (usize, u64) = udh_reference_position(reference);
    proof {
        either_bit(
            bucket.active@[word as int],
            bucket.cooling@[word as int],
            (reference % 64) as u64,
        );
    }
    (bucket.active[word] | bucket.cooling[word]) & mask != 0
}

/// Lets go of every reference that is cool at `now`.
fn purge_udh_cooldowns(bucket: &mut UdhReferenceBucket, now: u128)
    ensures
        final(bucket)@ == old(bucket)@.purged(now),
{
    let ghost before = bucket@;
    let mut kept: Vec<(u128, u8)> = Vec::new();
    let count: usize = bucket.cooldowns.len();
    let mut i: usize = 0;
    assert(bucket@.cooling =~= Set::new(
        |r: u8| before.cooling.contains(r) && !cool(before.cooldowns.take(0), r, now),
    ));
    while i < count
        invariant
            i <= count,
            count == before.cooldowns.len(),
            bucket@.active == before.active,
            bucket@.cooldowns == before.cooldowns,
            kept@ == running(before.cooldowns.take(i as int), now),
            bucket@.cooling == Set::new(
                |r: u8|
                    before.cooling.contains(r) && !cool(before.cooldowns.take(i as int), r, now),
            ),
        decreases count - i,
    {
        let (deadline, reference) = bucket.cooldowns[i];
        let ghost seen = before.cooldowns.take(i as int);
        let ghost next = before.cooldowns.take(i + 1);
        assert(next.drop_last() =~= seen);
        assert(next.last() == (deadline, reference));
        if deadline > now {
            kept.push((deadline, reference));
        } else {
            clear_udh_reference(&mut bucket.cooling, reference);
        }
        assert forall|r: u8| cool(next, r, now) == (cool(seen, r, now) || (deadline <= now
            && reference == r)) by {
            if cool(seen, r, now) {
                let k = choose|k: int|
                    0 <= k < seen.len() && (#[trigger] seen[k]).0 <= now && seen[k].1 == r;
                assert(next[k] == seen[k]);
            }
            if cool(next, r, now) {
                let k = choose|k: int|
                    0 <= k < next.len() && (#[trigger] next[k]).0 <= now && next[k].1 == r;
                assert(k < i ==> seen[k] == next[k]);
            }
            assert(next[i as int] == (deadline, reference));
        }
        i = i + 1;
        assert(bucket@.cooling =~= Set::new(
            |r: u8| before.cooling.contains(r) && !cool(before.cooldowns.take(i as int), r, now),
        ));
    }
    assert(before.cooldowns.take(count as int) =~= before.cooldowns);
    bucket.cooldowns = kept;
}

// ---- the pool ----

/// Whether bucket numbers are in strictly rising order and in range.
pub open spec fn are_bucket_ids(ids: Seq<usize>) -> bool {
    &&& forall|i: int| 0 <= i < ids.len() ==> (#[trigger] ids[i]) < UDH_REFERENCE_BUCKET_COUNT
    &&& forall|i: int, j: int| 0 <= i < j < ids.len() ==> #[trigger] ids[i] < #[trigger] ids[j]
}

/// The bucket that a hash value falls into.
pub open spec fn bucket_of(hash: u64) -> usize {
    (hash % 4096) as usize
}

/// Whether a reference is taken in none of some buckets.
pub open spec fn available(pool: Seq<BucketView>, ids: Seq<usize>, reference: u8) -> bool {
    forall|i: int| 0 <= i < ids.len() ==> !pool[(#[trigger] ids[i]) as int].taken(reference)
}

/// The reference `offset` places behind `preferred`; 0 comes behind 255.
pub open spec fn reference_at(preferred: u8, offset: int) -> u8 {
    ((preferred + offset) % 256) as u8
}

/// The pool with `f` applied to some buckets.
pub open spec fn touched(
    pool: Seq<BucketView>,
    ids: Seq<usize>,
    f: spec_fn(BucketView) -> BucketView,
) -> Seq<BucketView> {
    pool.map(
        |b: int, bucket: BucketView|
            if ids.contains(b as usize) {
                f(bucket)
            } else {
                bucket
            },
    )
}

/// The pool without what is cool in some buckets at `now`.
pub open spec fn purged_pool(pool: Seq<BucketView>, ids: Seq<usize>, now: u128) -> Seq<BucketView> {
    touched(pool, ids, |bucket: BucketView| bucket.purged(now))
}

/// The pool with a reference in use in some buckets.
pub open spec fn pool_using(pool: Seq<BucketView>, ids: Seq<usize>, reference: u8) -> Seq<
    BucketView,
> {
    touched(pool, ids, |bucket: BucketView| bucket.using(reference))
}

/// The pool when a reference is given up in some buckets.
pub open spec fn pool_without(
    pool: Seq<BucketView>,
    ids: Seq<usize>,
    reference: u8,
    exposed: bool,
    deadline: Option<u128>,
) -> Seq<BucketView> {
    touched(pool, ids, |bucket: BucketView| bucket.without(reference, exposed, deadline))
}

proof fn touched_none(pool: Seq<BucketView>, ids: Seq<usize>, f: spec_fn(BucketView) -> BucketView)
    ensures
        touched(pool, ids.take(0), f) == pool,
{
    assert(touched(pool, ids.take(0), f) =~= pool);
}

proof fn touched_next(
    pool: Seq<BucketView>,
    ids: Seq<usize>,
    f: spec_fn(BucketView) -> BucketView,
    i: int,
)
    requires
        pool.len() == UDH_REFERENCE_BUCKET_COUNT,
        are_bucket_ids(ids),
        0 <= i < ids.len(),
    ensures
        touched(pool, ids.take(i), f)[ids[i] as int] == pool[ids[i] as int],
        touched(pool, ids.take(i + 1), f) == touched(pool, ids.take(i), f).update(
            ids[i] as int,
            f(pool[ids[i] as int]),
        ),
{
    let before = ids.take(i);
    let after = ids.take(i + 1);
    assert(!before.contains(ids[i]));
    assert forall|b: usize| after.contains(b) == (before.contains(b) || b == ids[i]) by {
        if before.contains(b) {
            assert(after[before.index_of(b)] == b);
        }
        assert(after[i] == ids[i]);
        if after.contains(b) && b != ids[i] {
            assert(before[after.index_of(b)] == b);
        }
    }
    assert(touched(pool, after, f) =~= touched(pool, before, f).update(
        ids[i] as int,
        f(pool[ids[i] as int]),
    ));
}

/// What acquiring does: of the references that are taken in none of the buckets once they are
/// rid of what is cool, it takes the first from `preferred` on, if there is any.
pub open spec fn acquires(
    before: Seq<BucketView>,
    after: Seq<BucketView>,
    ids: Seq<usize>,
    preferred: u8,
    now: u128,
    reference: Option<u8>,
) -> bool {
    let pool = purged_pool(before, ids, now);
    match reference {
        Some(r) => {
            &&& exists|offset: int|
                0 <= offset < 256 && r == #[trigger] reference_at(preferred, offset) && (
                forall|o: int|
                    0 <= o < offset ==> !available(pool, ids, #[trigger] reference_at(preferred, o)))
            &&& available(pool, ids, r)
            &&& after == pool_using(pool, ids, r)
        },
        None => {
            &&& forall|r: u8| !(#[trigger] available(pool, ids, r))
            &&& after == pool
        },
    }
}

/// Whether a reference is in use in all of some buckets.
pub open spec fn in_use(pool: Seq<BucketView>, ids: Seq<usize>, reference: u8) -> bool {
    forall|i: int|
        0 <= i < ids.len() ==> pool[(#[trigger] ids[i]) as int].active.contains(reference)
}

/// The moment at which a reference that is given up at `now` is cool; none where time cannot
/// tell it, or where the reference never went on air.
pub open spec fn cool_at(now: u128, cooldown: u128, exposed: bool) -> Option<u128> {
    if exposed && now + cooldown <= u128::MAX {
        Some((now + cooldown) as u128)
    } else {
        None
    }
}

impl UdhReferenceLease {
    /// The buckets of the numbers that the reference is for.
    pub closed spec fn ids(self) -> Seq<usize> {
        self.bucket_ids@
    }

    /// The reference that the lease is for.
    pub closed spec fn held_reference(self) -> u8 {
        self.reference
    }

    /// How long the reference cools down.
    pub closed spec fn cooldown(self) -> u128 {
        self.cooldown
    }

    /// Whether the reference went on air.
    pub closed spec fn exposed(self) -> bool {
        self.exposed
    }

    /// The buckets are bucket numbers.
    pub open spec fn wf(self) -> bool {
        are_bucket_ids(self.ids())
    }

    /// The reference that the lease is for.
    pub fn reference(&self) -> (reference: u8)
        ensures
            reference == self.held_reference(),
    {
        self.reference
    }

    /// Notes that the reference goes on air.
    pub fn mark_exposed(&mut self)
        ensures
            final(self).exposed(),
            final(self).ids() == old(self).ids(),
            final(self).held_reference() == old(self).held_reference(),
            final(self).cooldown() == old(self).cooldown(),
    {
        self.exposed = true;
    }
}

/// The octets of an address, as its field on the wire has them.
pub fn normalize_udh_address(value: &str) -> (normalized: [u8; 21])
    ensures
        normalized@ == text_field(value@, 21),
{
    let mut normalized: [u8; 21] = [0u8; 21];
    let bytes: &[u8] = value.as_bytes();
    let length: usize = if bytes.len() < ADDRESS_WIDTH {
        bytes.len()
    } else {
        ADDRESS_WIDTH
    };
    let mut i: usize = 0;
    while i < length
        invariant
            i <= length <= 21,
            length <= bytes@.len(),
            forall|j: int| 0 <= j < i ==> normalized@[j] == bytes@[j],
            forall|j: int| i <= j < 21 ==> normalized@[j] == 0,
        decreases length - i,
    {
        normalized[i] = bytes[i];
        i = i + 1;
    }
    assert(normalized@ =~= text_field(value@, 21));
    normalized
}

/// `RandomState::new`: a hasher with a seed of its own.
pub assume_specification[ RandomState::new ]() -> RandomState;

/// `BuildHasher::hash_one` on a `RandomState`: a number that depends on the seed of the state.
/// Which it is nothing says.
#[verifier::external_body]
fn random_number(state: &RandomState) -> u64 {
    state.hash_one(0u8)
}

/// The eight bytes of a seed.
pub open spec fn seed_bytes(seed: u64) -> Seq<u8> {
    Seq::new(8, |i: int| seed_byte(seed, i))
}

/// Byte `i` of a seed, the least significant first.
pub open spec fn seed_byte(seed: u64, i: int) -> u8
    decreases i,
{
    if i <= 0 {
        (seed % 256) as u8
    } else {
        seed_byte(seed / 256, i - 1)
    }
}

/// The bucket of a source and a destination, both as their fields on the wire have them.
pub open spec fn bucket_for(seed: u64, source: Seq<u8>, destination: Seq<u8>) -> usize {
    bucket_of(DefaultHasher::spec_finish(seq![seed_bytes(seed), source, destination]))
}

/// The destinations of a message, as their fields on the wire have them; one of zeros where there
/// is none.
pub open spec fn destination_addresses(destinations: Seq<Seq<char>>) -> Seq<Seq<u8>> {
    if destinations.len() == 0 {
        seq![Seq::new(21, |i: int| 0u8)]
    } else {
        destinations.map_values(|d: Seq<char>| text_field(d, 21))
    }
}

/// Whether `ids` are the buckets of a source and its destinations, each once, in rising order.
pub open spec fn are_buckets_of(
    ids: Seq<usize>,
    seed: u64,
    source: Seq<char>,
    destinations: Seq<Seq<char>>,
) -> bool {
    let addresses = destination_addresses(destinations);
    &&& are_bucket_ids(ids)
    &&& forall|b: usize| #[trigger]
        ids.contains(b) <==> exists|i: int|
            0 <= i < addresses.len() && bucket_for(
                seed,
                text_field(source, 21),
                #[trigger] addresses[i],
            ) == b
}

/// The eight bytes of a seed.
fn bytes_of_seed(seed: u64) -> (bytes: [u8; 8])
    ensures
        bytes@ == seed_bytes(seed),
{
    let mut bytes: [u8; 8] = [0u8; 8];
    let mut rest: u64 = seed;
    let mut i: usize = 0;
    while i < 8
        invariant
            i <= 8,
            forall|j: int| 0 <= j < i ==> bytes@[j] == seed_byte(seed, j),
            forall|j: int|
                i <= j < 8 ==> #[trigger] seed_byte(seed, j) == seed_byte(rest, j - i),
        decreases 8 - i,
    {
        assert(seed_byte(seed, i as int) == seed_byte(rest, 0));
        bytes[i] = (rest % 256) as u8;
        rest = rest / 256;
        i = i + 1;
    }
    assert(bytes@ =~= seed_bytes(seed));
    bytes
}

/// The hash value of a source and a destination.
fn address_hash(seed: u64, source: &[u8; 21], destination: &[u8; 21]) -> (hash: u64)
    ensures
        hash == DefaultHasher::spec_finish(seq![seed_bytes(seed), source@, destination@]),
{
    let start: [u8; 8] = bytes_of_seed(seed);
    let mut hasher: DefaultHasher = DefaultHasher::new();
    hasher.write(&start);
    hasher.write(source);
    hasher.write(destination);
    assert(hasher@ =~= seq![seed_bytes(seed), source@, destination@]);
    hasher.finish()
}

/// The buckets that some hash values fall into, each once, in rising order.
pub fn bucket_ids_of(hashes: &Vec<u64>) -> (ids: Vec<usize>)
    ensures
        are_bucket_ids(ids@),
        forall|b: usize| #[trigger]
            ids@.contains(b) <==> exists|i: int|
                0 <= i < hashes@.len() && bucket_of(#[trigger] hashes@[i]) == b,
{
    let mut ids: Vec<usize> = Vec::new();
    let count: usize = hashes.len();
    let mut n: usize = 0;
    while n < count
        invariant
            n <= count,
            count == hashes@.len(),
            are_bucket_ids(ids@),
            ids@.len() <= n,
            forall|b: usize| #[trigger]
                ids@.contains(b) <==> exists|i: int|
                    0 <= i < n && bucket_of(#[trigger] hashes@[i]) == b,
        decreases count - n,
    {
        let id: usize = (hashes[n] % 4096) as usize;
        let ghost before = ids@;
        let mut at: usize = 0;
        while at < ids.len() && ids[at] < id
            invariant
                at <= ids@.len(),
                ids@ == before,
                are_bucket_ids(before),
                forall|i: int| 0 <= i < at ==> before[i] < id,
            decreases ids@.len() - at,
        {
            at = at + 1;
        }
        if at == ids.len() || ids[at] != id {
            assert(forall|i: int| at <= i < before.len() ==> id < before[i]);
            ids.insert(at, id);
            assert(ids@[at as int] == id);
            assert forall|b: usize| ids@.contains(b) <==> before.contains(b) || b == id by {
                if before.contains(b) {
                    let k = before.index_of(b);
                    assert(ids@[if k < at { k } else { k + 1 }] == b);
                }
                if ids@.contains(b) && b != id {
                    let k = ids@.index_of(b);
                    assert(before[if k < at { k } else { k - 1 }] == b);
                }
            }
        } else {
            assert(before.contains(id)) by {
                assert(before[at as int] == id);
            }
        }
        assert(ids@.contains(id));
        assert(id == bucket_of(hashes@[n as int]));
        assert(forall|b: usize| #[trigger] ids@.contains(b) <==> before.contains(b) || b == id);
        n = n + 1;
        assert forall|b: usize| #[trigger]
            ids@.contains(b) <==> exists|i: int|
                0 <= i < n && bucket_of(#[trigger] hashes@[i]) == b by {
            if ids@.contains(b) {
                if b != id {
                    assert(before.contains(b));
                    let k = choose|i: int|
                        0 <= i < n - 1 && bucket_of(#[trigger] hashes@[i]) == b;
                    assert(bucket_of(hashes@[k]) == b);
                } else {
                    assert(bucket_of(hashes@[n - 1]) == b);
                }
            }
            if exists|i: int| 0 <= i < n && bucket_of(#[trigger] hashes@[i]) == b {
                let k = choose|i: int| 0 <= i < n && bucket_of(#[trigger] hashes@[i]) == b;
                if k < n - 1 {
                    assert(before.contains(b));
                }
            }
        }
    }
    ids
}

impl UdhReferencePool {
    /// The buckets.
    pub closed spec fn buckets(self) -> Seq<BucketView> {
        self.buckets@.map_values(|b: UdhReferenceBucket| b@)
    }

    /// What the spreading over the buckets depends on.
    pub closed spec fn seed(self) -> u64 {
        self.seed
    }

    /// There are as many buckets as there have to be, each well-formed.
    pub open spec fn wf(self) -> bool {
        &&& self.buckets().len() == UDH_REFERENCE_BUCKET_COUNT
        &&& forall|b: int| 0 <= b < self.buckets().len() ==> (#[trigger] self.buckets()[b]).wf()
    }

    /// A pool with nothing in use.
    pub fn new() -> (pool: UdhReferencePool)
        ensures
            pool.wf(),
            forall|b: int|
                0 <= b < pool.buckets().len() ==> (#[trigger] pool.buckets()[b]) == (BucketView {
                    active: Set::empty(),
                    cooling: Set::empty(),
                    cooldowns: Seq::empty(),
                }),
    {
        let mut buckets: Vec<UdhReferenceBucket> = Vec::new();
        let mut i: usize = 0;
        while i < UDH_REFERENCE_BUCKET_COUNT
            invariant
                i <= UDH_REFERENCE_BUCKET_COUNT,
                buckets@.len() == i,
                forall|b: int|
                    0 <= b < i ==> (#[trigger] buckets@[b])@ == (BucketView {
                        active: Set::empty(),
                        cooling: Set::empty(),
                        cooldowns: Seq::empty(),
                    }),
            decreases UDH_REFERENCE_BUCKET_COUNT - i,
        {
            buckets.push(UdhReferenceBucket::new());
            i = i + 1;
        }
        let state: RandomState = RandomState::new();
        UdhReferencePool { buckets, seed: random_number(&state) }
    }

    /// The buckets of a source and its destinations.
    pub fn bucket_ids(&self, src_id: &str, destinations: &Vec<String>) -> (ids: Vec<usize>)
        ensures
            are_buckets_of(ids@, self.seed(), src_id@, texts(destinations@)),
            ids@.len() > 0,
    {
        let source: [u8; 21] = normalize_udh_address(src_id);
        let mut hashes: Vec<u64> = Vec::new();
        let count: usize = destinations.len();
        let ghost addresses = destination_addresses(texts(destinations@));
        if count == 0 {
            let nobody: [u8; 21] = [0u8; 21];
            assert(nobody@ =~= addresses[0]);
            hashes.push(address_hash(self.seed, &source, &nobody));
        }
        let mut i: usize = 0;
        while i < count
            invariant
                i <= count,
                count == destinations@.len(),
                source@ == text_field(src_id@, 21),
                addresses == destination_addresses(texts(destinations@)),
                hashes@.len() == if count == 0 {
                    1
                } else {
                    i as int
                },
                forall|j: int|
                    0 <= j < hashes@.len() ==> (#[trigger] hashes@[j]) == DefaultHasher::spec_finish(
                        seq![seed_bytes(self.seed), source@, addresses[j]],
                    ),
            decreases count - i,
        {
            let destination: [u8; 21] = normalize_udh_address(destinations[i].as_str());
            assert(destination@ == addresses[i as int]);
            hashes.push(address_hash(self.seed, &source, &destination));
            i = i + 1;
        }
        let ids: Vec<usize> = bucket_ids_of(&hashes);
        assert(ids@.contains(bucket_of(hashes@[0])));
        assert forall|b: usize| #[trigger]
            ids@.contains(b) <==> exists|i: int|
                0 <= i < addresses.len() && bucket_for(
                    self.seed(),
                    text_field(src_id@, 21),
                    #[trigger] addresses[i],
                ) == b by {
            if ids@.contains(b) {
                let k = choose|k: int|
                    0 <= k < hashes@.len() && bucket_of(#[trigger] hashes@[k]) == b;
                assert(bucket_for(self.seed(), text_field(src_id@, 21), addresses[k]) == b);
            }
            if exists|i: int|
                0 <= i < addresses.len() && bucket_for(
                    self.seed(),
                    text_field(src_id@, 21),
                    #[trigger] addresses[i],
                ) == b {
                let k = choose|i: int|
                    0 <= i < addresses.len() && bucket_for(
                        self.seed(),
                        text_field(src_id@, 21),
                        #[trigger] addresses[i],
                    ) == b;
                assert(bucket_of(hashes@[k]) == b);
            }
        }
        ids
    }

    /// Whether a reference is taken in none of some buckets.
    fn is_available(&self, ids: &Vec<usize>, reference: u8) -> (free: bool)
        requires
            self.wf(),
            are_bucket_ids(ids@),
        ensures
            free == available(self.buckets(), ids@, reference),
    {
        let mut i: usize = 0;
        while i < ids.len()
            invariant
                i <= ids@.len(),
                self.wf(),
                are_bucket_ids(ids@),
                forall|j: int|
                    0 <= j < i ==> !self.buckets()[(#[trigger] ids@[j]) as int].taken(reference),
            decreases ids@.len() - i,
        {
            let id: usize = ids[i];
            assert(self.buckets()[id as int] == self.buckets@[id as int]@);
            if udh_reference_is_set(&self.buckets[id], reference) {
                assert(self.buckets()[ids@[i as int] as int].taken(reference));
                return false;
            }
            i = i + 1;
        }
        true
    }

    /// Takes the first free reference from `preferred` on, towards the numbers of some buckets.
    pub fn try_acquire(
        &mut self,
        bucket_ids: Vec<usize>,
        preferred: u8,
        cooldown: u128,
        now: u128,
    ) -> (lease: Option<UdhReferenceLease>)
        requires
            old(self).wf(),
            are_bucket_ids(bucket_ids@),
        ensures
            final(self).wf(),
            final(self).seed() == old(self).seed(),
            acquires(
                old(self).buckets(),
                final(self).buckets(),
                bucket_ids@,
                preferred,
                now,
                match lease {
                    Some(l) => Some(l.held_reference()),
                    None => None,
                },
            ),
            lease matches Some(l) ==> l.wf() && l.ids() == bucket_ids@ && l.cooldown() == cooldown
                && !l.exposed(),
    {
        let ghost before = self.buckets();
        let ghost purge = |bucket: BucketView| bucket.purged(now);
        let count: usize = bucket_ids.len();
        let mut i: usize = 0;
        proof {
            touched_none(before, bucket_ids@, purge);
        }
        while i < count
            invariant
                i <= count,
                count == bucket_ids@.len(),
                are_bucket_ids(bucket_ids@),
                before.len() == UDH_REFERENCE_BUCKET_COUNT,
                self.buckets@.len() == UDH_REFERENCE_BUCKET_COUNT,
                self.seed == old(self).seed,
                purge == (|bucket: BucketView| bucket.purged(now)),
                self.buckets() == touched(before, bucket_ids@.take(i as int), purge),
            decreases count - i,
        {
            let id: usize = bucket_ids[i];
            proof {
                touched_next(before, bucket_ids@, purge, i as int);
            }
            assert(self.buckets()[id as int] == self.buckets@[id as int]@);
            let ghost round = self.buckets();
            purge_udh_cooldowns(&mut self.buckets[id], now);
            assert(self.buckets() =~= round.update(id as int, before[id as int].purged(now)));
            i = i + 1;
        }
        assert(bucket_ids@.take(count as int) =~= bucket_ids@);
        let ghost pool = purged_pool(before, bucket_ids@, now);
        proof {
            purging_keeps_wf(before, bucket_ids@, now);
        }
        let mut offset: usize = 0;
        while offset < 256
            invariant
                offset <= 256,
                count == bucket_ids@.len(),
                are_bucket_ids(bucket_ids@),
                before == old(self).buckets(),
                old(self).wf(),
                pool == purged_pool(before, bucket_ids@, now),
                self.buckets() == pool,
                self.wf(),
                self.seed == old(self).seed,
                forall|o: int|
                    0 <= o < offset ==> !available(
                        pool,
                        bucket_ids@,
                        #[trigger] reference_at(preferred, o),
                    ),
            decreases 256 - offset,
        {
            let reference: u8 = preferred.wrapping_add(offset as u8);
            assert(reference == reference_at(preferred, offset as int));
            if self.is_available(&bucket_ids, reference) {
                self.mark_active(&bucket_ids, reference);
                proof {
                    using_keeps_wf(pool, bucket_ids@, reference);
                }
                return Some(
                    UdhReferenceLease { bucket_ids, reference, cooldown, exposed: false },
                );
            }
            offset = offset + 1;
        }
        assert forall|r: u8| !(#[trigger] available(pool, bucket_ids@, r)) by {
            let o = (r - preferred + 256) % 256;
            assert(reference_at(preferred, o) == r);
        }
        None
    }

    /// Whether the reference of a lease is in use in all of its buckets, as it is from when it is
    /// acquired until it is given up.
    pub fn holds(&self, lease: &UdhReferenceLease) -> (held: bool)
        requires
            self.wf(),
            lease.wf(),
        ensures
            held == in_use(self.buckets(), lease.ids(), lease.held_reference()),
    {
        let (word, mask): (usize, u64) = udh_reference_position(lease.reference);
        let mut i: usize = 0;
        while i < lease.bucket_ids.len()
            invariant
                i <= lease.bucket_ids@.len(),
                self.wf(),
                lease.wf(),
                word == lease.reference / 64,
                word < 4,
                mask == 1u64 << (lease.reference % 64) as u64,
                forall|j: int|
                    0 <= j < i ==> self.buckets()[(#[trigger] lease.ids()[j]) as int]
                        .active.contains(lease.reference),
            decreases lease.bucket_ids@.len() - i,
        {
            let id: usize = lease.bucket_ids[i];
            assert(id == lease.ids()[i as int]);
            assert(self.buckets()[id as int] == self.buckets@[id as int]@);
            if self.buckets[id].active[word] & mask == 0 {
                return false;
            }
            i = i + 1;
        }
        true
    }

    /// Notes a reference as in use in some buckets.
    fn mark_active(&mut self, ids: &Vec<usize>, reference: u8)
        requires
            old(self).buckets().len() == UDH_REFERENCE_BUCKET_COUNT,
            are_bucket_ids(ids@),
        ensures
            final(self).buckets() == pool_using(old(self).buckets(), ids@, reference),
            final(self).seed() == old(self).seed(),
    {
        let ghost before = self.buckets();
        let ghost mark = |bucket: BucketView| bucket.using(reference);
        let count: usize = ids.len();
        let mut i: usize = 0;
        proof {
            touched_none(before, ids@, mark);
        }
        while i < count
            invariant
                i <= count,
                count == ids@.len(),
                are_bucket_ids(ids@),
                before.len() == UDH_REFERENCE_BUCKET_COUNT,
                self.buckets@.len() == UDH_REFERENCE_BUCKET_COUNT,
                self.seed == old(self).seed,
                mark == (|bucket: BucketView| bucket.using(reference)),
                self.buckets() == touched(before, ids@.take(i as int), mark),
            decreases count - i,
        {
            let id: usize = ids[i];
            proof {
                touched_next(before, ids@, mark, i as int);
            }
            assert(self.buckets()[id as int] == self.buckets@[id as int]@);
            let ghost round = self.buckets();
            let bucket: &mut UdhReferenceBucket = &mut self.buckets[id];
            set_udh_reference(&mut bucket.active, reference);
            assert(self.buckets() =~= round.update(id as int, before[id as int].using(reference)));
            i = i + 1;
        }
        assert(ids@.take(count as int) =~= ids@);
    }

    /// Gives up a reference: one that went on air cools down first.
    pub fn release(&mut self, lease: UdhReferenceLease, now: u128)
        requires
            old(self).wf(),
            lease.wf(),
            in_use(old(self).buckets(), lease.ids(), lease.held_reference()),
        ensures
            final(self).wf(),
            final(self).seed() == old(self).seed(),
            final(self).buckets() == pool_without(
                old(self).buckets(),
                lease.ids(),
                lease.held_reference(),
                lease.exposed(),
                cool_at(now, lease.cooldown(), lease.exposed()),
            ),
    {
        let ghost before = self.buckets();
        let exposed: bool = lease.exposed;
        let reference: u8 = lease.reference;
        let deadline: Option<u128> = if exposed {
            now.checked_add(lease.cooldown)
        } else {
            None
        };
        let ghost free = |bucket: BucketView| bucket.without(reference, exposed, deadline);
        let ghost ids = lease.ids();
        let count: usize = lease.bucket_ids.len();
        let mut i: usize = 0;
        proof {
            touched_none(before, ids, free);
        }
        while i < count
            invariant
                i <= count,
                count == ids.len(),
                ids == lease.bucket_ids@,
                are_bucket_ids(ids),
                before.len() == UDH_REFERENCE_BUCKET_COUNT,
                self.buckets@.len() == UDH_REFERENCE_BUCKET_COUNT,
                self.seed == old(self).seed,
                free == (|bucket: BucketView| bucket.without(reference, exposed, deadline)),
                self.buckets() == touched(before, ids.take(i as int), free),
            decreases count - i,
        {
            let id: usize = lease.bucket_ids[i];
            proof {
                touched_next(before, ids, free, i as int);
            }
            assert(self.buckets()[id as int] == self.buckets@[id as int]@);
            let ghost round = self.buckets();
            let bucket: &mut UdhReferenceBucket = &mut self.buckets[id];
            clear_udh_reference(&mut bucket.active, reference);
            if exposed {
                set_udh_reference(&mut bucket.cooling, reference);
                if let Some(at) = deadline {
                    bucket.cooldowns.push((at, reference));
                }
            }
            assert(self.buckets() =~= round.update(
                id as int,
                before[id as int].without(reference, exposed, deadline),
            ));
            i = i + 1;
        }
        assert(ids.take(count as int) =~= ids);
        proof {
            giving_up_keeps_wf(before, ids, reference, exposed, deadline);
        }
    }
}

proof fn running_entries(cooldowns: Seq<(u128, u8)>, now: u128)
    requires
        one_each(cooldowns),
    ensures
        one_each(running(cooldowns, now)),
        forall|i: int|
            0 <= i < running(cooldowns, now).len() ==> (#[trigger] running(cooldowns, now)[i]).0
                > now && cooldowns.contains(running(cooldowns, now)[i]),
    decreases cooldowns.len(),
{
    if cooldowns.len() > 0 {
        let rest = cooldowns.drop_last();
        let last = cooldowns.last();
        let kept = running(cooldowns, now);
        assert(one_each(rest)) by {
            assert forall|i: int, j: int| 0 <= i < j < rest.len() implies (#[trigger] rest[i]).1
                != (#[trigger] rest[j]).1 by {
                assert(cooldowns[i].1 != cooldowns[j].1);
            }
        }
        running_entries(rest, now);
        assert forall|i: int| 0 <= i < running(rest, now).len() implies cooldowns.contains(
            #[trigger] running(rest, now)[i],
        ) && running(rest, now)[i].1 != last.1 by {
            let entry = running(rest, now)[i];
            let k = rest.index_of(entry);
            assert(cooldowns[k] == entry);
            assert(cooldowns[k].1 != cooldowns[cooldowns.len() - 1].1);
        }
        assert forall|i: int| 0 <= i < kept.len() implies (#[trigger] kept[i]).0 > now
            && cooldowns.contains(kept[i]) by {
            if i < running(rest, now).len() {
                assert(kept[i] == running(rest, now)[i]);
            } else {
                assert(cooldowns[cooldowns.len() - 1] == kept[i]);
            }
        }
        assert forall|i: int, j: int| 0 <= i < j < kept.len() implies (#[trigger] kept[i]).1 != (
        #[trigger] kept[j]).1 by {
            assert(kept[i] == running(rest, now)[i]);
            if j < running(rest, now).len() {
                assert(kept[j] == running(rest, now)[j]);
            }
        }
    }
}

proof fn purged_wf(bucket: BucketView, now: u128)
    requires
        bucket.wf(),
    ensures
        bucket.purged(now).wf(),
{
    let cooldowns = bucket.cooldowns;
    let after = bucket.purged(now);
    running_entries(cooldowns, now);
    assert forall|i: int| 0 <= i < after.cooldowns.len() implies after.cooling.contains(
        (#[trigger] after.cooldowns[i]).1,
    ) by {
        let entry = after.cooldowns[i];
        let k = cooldowns.index_of(entry);
        assert(cooldowns[k] == entry);
        if cool(cooldowns, entry.1, now) {
            let c = choose|c: int|
                0 <= c < cooldowns.len() && (#[trigger] cooldowns[c]).0 <= now && cooldowns[c].1
                    == entry.1;
            assert(c == k);
        }
    }
}

proof fn purging_keeps_wf(pool: Seq<BucketView>, ids: Seq<usize>, now: u128)
    requires
        forall|b: int| 0 <= b < pool.len() ==> (#[trigger] pool[b]).wf(),
    ensures
        forall|b: int|
            0 <= b < pool.len() ==> (#[trigger] purged_pool(pool, ids, now)[b]).wf(),
{
    assert forall|b: int| 0 <= b < pool.len() implies (#[trigger] purged_pool(
        pool,
        ids,
        now,
    )[b]).wf() by {
        purged_wf(pool[b], now);
    }
}

proof fn using_keeps_wf(pool: Seq<BucketView>, ids: Seq<usize>, reference: u8)
    requires
        pool.len() == UDH_REFERENCE_BUCKET_COUNT,
        forall|b: int| 0 <= b < pool.len() ==> (#[trigger] pool[b]).wf(),
        available(pool, ids, reference),
    ensures
        forall|b: int|
            0 <= b < pool.len() ==> (#[trigger] pool_using(pool, ids, reference)[b]).wf(),
{
    assert forall|b: int| 0 <= b < pool.len() implies (#[trigger] pool_using(
        pool,
        ids,
        reference,
    )[b]).wf() by {
        let bucket = pool[b];
        if ids.contains(b as usize) {
            let i = ids.index_of(b as usize);
            assert(!pool[ids[i] as int].taken(reference));
        }
    }
}

proof fn giving_up_keeps_wf(
    pool: Seq<BucketView>,
    ids: Seq<usize>,
    reference: u8,
    exposed: bool,
    deadline: Option<u128>,
)
    requires
        pool.len() == UDH_REFERENCE_BUCKET_COUNT,
        forall|b: int| 0 <= b < pool.len() ==> (#[trigger] pool[b]).wf(),
        in_use(pool, ids, reference),
    ensures
        forall|b: int|
            0 <= b < pool.len() ==> (#[trigger] pool_without(
                pool,
                ids,
                reference,
                exposed,
                deadline,
            )[b]).wf(),
{
    assert forall|b: int| 0 <= b < pool.len() implies (#[trigger] pool_without(
        pool,
        ids,
        reference,
        exposed,
        deadline,
    )[b]).wf() by {
        let bucket = pool[b];
        if ids.contains(b as usize) {
            let i = ids.index_of(b as usize);
            assert(pool[ids[i] as int].active.contains(reference));
            assert(!bucket.cooling.contains(reference));
        }
    }
}

// ---- laws ----

/// A reference that is acquired was held in none of its buckets, and is in use in all of them
/// from then on.
pub proof fn acquired_reference_is_new(
    before: Seq<BucketView>,
    after: Seq<BucketView>,
    ids: Seq<usize>,
    preferred: u8,
    now: u128,
    reference: u8,
    i: int,
)
    requires
        before.len() == UDH_REFERENCE_BUCKET_COUNT,
        are_bucket_ids(ids),
        acquires(before, after, ids, preferred, now, Some(reference)),
        0 <= i < ids.len(),
    ensures
        !before[ids[i] as int].held(reference, now),
        in_use(after, ids, reference),
{
    let pool = purged_pool(before, ids, now);
    assert(ids.contains(ids[i]));
    assert(!pool[ids[i] as int].taken(reference));
    assert forall|j: int| 0 <= j < ids.len() implies after[(#[trigger] ids[j]) as int].active.contains(
        reference,
    ) by {
        assert(ids.contains(ids[j]));
    }
}

/// As long as some reference is not held in the buckets of a message, one is acquired.
pub proof fn acquiring_succeeds_while_it_can(
    before: Seq<BucketView>,
    after: Seq<BucketView>,
    ids: Seq<usize>,
    preferred: u8,
    now: u128,
    acquired: Option<u8>,
    free: u8,
)
    requires
        before.len() == UDH_REFERENCE_BUCKET_COUNT,
        are_bucket_ids(ids),
        acquires(before, after, ids, preferred, now, acquired),
        forall|i: int|
            0 <= i < ids.len() ==> !before[(#[trigger] ids[i]) as int].held(free, now),
    ensures
        acquired is Some,
{
    let pool = purged_pool(before, ids, now);
    assert(available(pool, ids, free)) by {
        assert forall|i: int| 0 <= i < ids.len() implies !pool[(#[trigger] ids[i]) as int].taken(
            free,
        ) by {
            assert(ids.contains(ids[i]));
        }
    }
}

/// A reference that is held at `now` stays so when another is acquired at that time or before.
pub proof fn held_through_acquiring(
    before: Seq<BucketView>,
    after: Seq<BucketView>,
    ids: Seq<usize>,
    preferred: u8,
    then: u128,
    acquired: Option<u8>,
    bucket: int,
    reference: u8,
    now: u128,
)
    requires
        before.len() == UDH_REFERENCE_BUCKET_COUNT,
        0 <= bucket < before.len(),
        before[bucket].wf(),
        acquires(before, after, ids, preferred, then, acquired),
        then <= now,
        before[bucket].held(reference, now),
    ensures
        after[bucket].held(reference, now),
{
    let cooldowns = before[bucket].cooldowns;
    let kept = running(cooldowns, then);
    running_entries(cooldowns, then);
    if cool(kept, reference, now) {
        let k = choose|k: int|
            0 <= k < kept.len() && (#[trigger] kept[k]).0 <= now && kept[k].1 == reference;
        let c = cooldowns.index_of(kept[k]);
        assert(cooldowns[c] == kept[k]);
        assert(cool(cooldowns, reference, now));
    }
    if cool(cooldowns, reference, then) {
        let c = choose|c: int|
            0 <= c < cooldowns.len() && (#[trigger] cooldowns[c]).0 <= then && cooldowns[c].1
                == reference;
        assert(cooldowns[c].0 <= now);
        assert(cool(cooldowns, reference, now));
    }
}

/// A reference that is held at `now` in a bucket stays so when another is given up, or the same
/// number in other buckets.
pub proof fn held_through_giving_up(
    before: Seq<BucketView>,
    ids: Seq<usize>,
    other: u8,
    exposed: bool,
    deadline: Option<u128>,
    bucket: int,
    reference: u8,
    now: u128,
)
    requires
        before.len() == UDH_REFERENCE_BUCKET_COUNT,
        0 <= bucket < before.len(),
        other != reference || !ids.contains(bucket as usize),
        before[bucket].held(reference, now),
    ensures
        pool_without(before, ids, other, exposed, deadline)[bucket].held(reference, now),
{
    let cooldowns = before[bucket].cooldowns;
    let after = pool_without(before, ids, other, exposed, deadline)[bucket].cooldowns;
    if cool(after, reference, now) {
        let k = choose|k: int|
            0 <= k < after.len() && (#[trigger] after[k]).0 <= now && after[k].1 == reference;
        assert(cooldowns[k] == after[k]);
        assert(cool(cooldowns, reference, now));
    }
}

/// A reference that went on air and is given up is held until its cooldown is over, and no
/// longer; one that did not go on air is held no longer.
pub proof fn given_up_reference_cools_down(
    before: Seq<BucketView>,
    ids: Seq<usize>,
    reference: u8,
    exposed: bool,
    then: u128,
    cooldown: u128,
    i: int,
    now: u128,
)
    requires
        before.len() == UDH_REFERENCE_BUCKET_COUNT,
        are_bucket_ids(ids),
        0 <= i < ids.len(),
        before[ids[i] as int].wf(),
        in_use(before, ids, reference),
    ensures
        pool_without(before, ids, reference, exposed, cool_at(then, cooldown, exposed))[ids[i] as int].held(
            reference,
            now,
        ) <==> exposed && now < then + cooldown,
{
    let deadline = cool_at(then, cooldown, exposed);
    let bucket = before[ids[i] as int];
    let after = pool_without(before, ids, reference, exposed, deadline)[ids[i] as int];
    assert(ids.contains(ids[i]));
    assert(bucket.active.contains(reference));
    assert(!bucket.cooling.contains(reference));
    if exposed && deadline is Some {
        assert(after.cooldowns[after.cooldowns.len() - 1] == (deadline->0, reference));
        if cool(after.cooldowns, reference, now) {
            let k = choose|k: int|
                0 <= k < after.cooldowns.len() && (#[trigger] after.cooldowns[k]).0 <= now
                    && after.cooldowns[k].1 == reference;
            if k < bucket.cooldowns.len() {
                assert(bucket.cooldowns[k] == after.cooldowns[k]);
            }
        }
    } else if exposed {
        if cool(after.cooldowns, reference, now) {
            let k = choose|k: int|
                0 <= k < after.cooldowns.len() && (#[trigger] after.cooldowns[k]).0 <= now
                    && after.cooldowns[k].1 == reference;
            assert(bucket.cooldowns[k] == after.cooldowns[k]);
        }
    }
}

/// Two messages from the same source to the same number, as far as the wire tells, share a bucket.
pub proof fn same_numbers_share_a_bucket(
    seed: u64,
    source: Seq<char>,
    ids: Seq<usize>,
    destinations: Seq<Seq<char>>,
    i: int,
    other_source: Seq<char>,
    other_ids: Seq<usize>,
    other_destinations: Seq<Seq<char>>,
    j: int,
) -> (bucket: usize)
    requires
        are_buckets_of(ids, seed, source, destinations),
        are_buckets_of(other_ids, seed, other_source, other_destinations),
        text_field(source, 21) == text_field(other_source, 21),
        0 <= i < destinations.len(),
        0 <= j < other_destinations.len(),
        text_field(destinations[i], 21) == text_field(other_destinations[j], 21),
    ensures
        ids.contains(bucket),
        other_ids.contains(bucket),
{
    let address = destination_addresses(destinations)[i];
    let other = destination_addresses(other_destinations)[j];
    assert(address == other);
    let bucket = bucket_for(seed, text_field(source, 21), address);
    assert(bucket_for(seed, text_field(other_source, 21), other) == bucket);
    bucket
}

/// A message never gets a reference that another holds that is, as far as the wire tells, from the
/// same source to one of the same numbers: as long as that reference is in use or cools down.
pub proof fn same_numbers_do_not_share_a_reference(
    seed: u64,
    source: Seq<char>,
    ids: Seq<usize>,
    destinations: Seq<Seq<char>>,
    i: int,
    other_source: Seq<char>,
    other_ids: Seq<usize>,
    other_destinations: Seq<Seq<char>>,
    j: int,
    before: Seq<BucketView>,
    after: Seq<BucketView>,
    held: u8,
    preferred: u8,
    now: u128,
    acquired: u8,
)
    requires
        are_buckets_of(ids, seed, source, destinations),
        are_buckets_of(other_ids, seed, other_source, other_destinations),
        text_field(source, 21) == text_field(other_source, 21),
        0 <= i < destinations.len(),
        0 <= j < other_destinations.len(),
        text_field(destinations[i], 21) == text_field(other_destinations[j], 21),
        before.len() == UDH_REFERENCE_BUCKET_COUNT,
        forall|k: int|
            0 <= k < ids.len() ==> before[(#[trigger] ids[k]) as int].held(held, now),
        acquires(before, after, other_ids, preferred, now, Some(acquired)),
    ensures
        acquired != held,
{
    let bucket = same_numbers_share_a_bucket(
        seed,
        source,
        ids,
        destinations,
        i,
        other_source,
        other_ids,
        other_destinations,
        j,
    );
    let k = ids.index_of(bucket);
    let l = other_ids.index_of(bucket);
    assert(before[ids[k] as int].held(held, now));
    acquired_reference_is_new(before, after, other_ids, preferred, now, acquired, l);
}

/// Acquiring takes the preferred reference if it can, and else the first behind it, where 0
/// comes behind 255: every reference that would come before the one that is taken is held in
/// one of the buckets.
pub proof fn first_free_reference_is_acquired(
    before: Seq<BucketView>,
    after: Seq<BucketView>,
    ids: Seq<usize>,
    preferred: u8,
    now: u128,
    reference: u8,
    other: u8,
)
    requires
        before.len() == 4096,
        are_bucket_ids(ids),
        acquires(before, after, ids, preferred, now, Some(reference)),
        (other - preferred) % 256 < (reference - preferred) % 256,
    ensures
        exists|i: int|
            0 <= i < ids.len() && before[(#[trigger] ids[i]) as int].held(other, now),
{
    let pool = purged_pool(before, ids, now);
    let o = (other - preferred) % 256;
    assert(reference_at(preferred, o) == other);
    assert(!available(pool, ids, other));
    let i = choose|i: int|
        0 <= i < ids.len() && pool[(#[trigger] ids[i]) as int].taken(other);
    assert(ids.contains(ids[i]));
    assert(before[ids[i] as int].held(other, now));
}

/// Nothing is acquired only where every reference is held in one of the buckets.
pub proof fn all_are_held_where_none_is_acquired(
    before: Seq<BucketView>,
    after: Seq<BucketView>,
    ids: Seq<usize>,
    preferred: u8,
    now: u128,
    other: u8,
)
    requires
        before.len() == 4096,
        are_bucket_ids(ids),
        acquires(before, after, ids, preferred, now, None),
    ensures
        exists|i: int|
            0 <= i < ids.len() && before[(#[trigger] ids[i]) as int].held(other, now),
{
    let pool = purged_pool(before, ids, now);
    assert(!available(pool, ids, other));
    let i = choose|i: int|
        0 <= i < ids.len() && pool[(#[trigger] ids[i]) as int].taken(other);
    assert(ids.contains(ids[i]));
    assert(before[ids[i] as int].held(other, now));
}

proof fn running_keeps(cooldowns: Seq<(u128, u8)>, now: u128, c: int)
    requires
        0 <= c < cooldowns.len(),
        cooldowns[c].0 > now,
    ensures
        running(cooldowns, now).contains(cooldowns[c]),
    decreases cooldowns.len(),
{
    let rest = cooldowns.drop_last();
    let kept = running(cooldowns, now);
    if c == cooldowns.len() - 1 {
        assert(kept[kept.len() - 1] == cooldowns[c]);
    } else {
        running_keeps(rest, now, c);
        let k = running(rest, now).index_of(cooldowns[c]);
        assert(kept[k] == cooldowns[c]);
    }
}

/// Acquiring puts the reference into use in the buckets of the message and touches nothing else:
/// no other bucket, nothing else that is in use, and nothing that still cools down.
pub proof fn acquiring_touches_one_reference(
    before: Seq<BucketView>,
    after: Seq<BucketView>,
    ids: Seq<usize>,
    preferred: u8,
    then: u128,
    acquired: Option<u8>,
    bucket: int,
    reference: u8,
    now: u128,
)
    requires
        before.len() == 4096,
        0 <= bucket < before.len(),
        before[bucket].wf(),
        acquires(before, after, ids, preferred, then, acquired),
        then <= now,
    ensures
        after.len() == before.len(),
        !ids.contains(bucket as usize) ==> after[bucket] == before[bucket],
        ids.contains(bucket as usize) && acquired is Some ==> after[bucket].active
            == before[bucket].active.insert(acquired->0),
        acquired is None ==> after[bucket].active == before[bucket].active,
        acquired != Some(reference) ==> after[bucket].held(reference, now)
            == before[bucket].held(reference, now),
{
    let cooldowns = before[bucket].cooldowns;
    let kept = running(cooldowns, then);
    running_entries(cooldowns, then);
    if before[bucket].held(reference, now) {
        held_through_acquiring(
            before,
            after,
            ids,
            preferred,
            then,
            acquired,
            bucket,
            reference,
            now,
        );
    } else if ids.contains(bucket as usize) && before[bucket].cooling.contains(reference)
        && !before[bucket].active.contains(reference) {
        let c = choose|c: int|
            0 <= c < cooldowns.len() && (#[trigger] cooldowns[c]).0 <= now && cooldowns[c].1
                == reference;
        if cooldowns[c].0 <= then {
            assert(cool(cooldowns, reference, then));
        } else {
            running_keeps(cooldowns, then, c);
            let k = kept.index_of(cooldowns[c]);
            assert(kept[k] == cooldowns[c]);
            assert(cool(kept, reference, now));
        }
    }
}

/// Giving a reference up takes it out of use in the buckets of its message and touches nothing
/// else: no other bucket, and no other reference.
pub proof fn giving_up_touches_one_reference(
    before: Seq<BucketView>,
    ids: Seq<usize>,
    given_up: u8,
    exposed: bool,
    deadline: Option<u128>,
    bucket: int,
    reference: u8,
    now: u128,
)
    requires
        before.len() == 4096,
        0 <= bucket < before.len(),
    ensures
        ({
            let after = pool_without(before, ids, given_up, exposed, deadline);
            &&& after.len() == before.len()
            &&& !ids.contains(bucket as usize) ==> after[bucket] == before[bucket]
            &&& ids.contains(bucket as usize) ==> after[bucket].active
                == before[bucket].active.remove(given_up)
            &&& reference != given_up ==> after[bucket].held(reference, now)
                == before[bucket].held(reference, now)
        }),
{
    let after = pool_without(before, ids, given_up, exposed, deadline);
    let cooldowns = before[bucket].cooldowns;
    if reference != given_up {
        if before[bucket].held(reference, now) {
            held_through_giving_up(
                before,
                ids,
                given_up,
                exposed,
                deadline,
                bucket,
                reference,
                now,
            );
        } else if cool(cooldowns, reference, now) {
            let c = choose|c: int|
                0 <= c < cooldowns.len() && (#[trigger] cooldowns[c]).0 <= now && cooldowns[c].1
                    == reference;
            assert(after[bucket].cooldowns[c] == cooldowns[c]);
            assert(cool(after[bucket].cooldowns, reference, now));
        }
    }
}

/// A number is its lowest byte and 256 times the rest: byte `i + 1` of it is byte `i` of the rest.
proof fn low_byte(n: u64, rest: u64, byte: u8)
    requires
        n == byte + 256 * rest,
    ensures
        seed_byte(n, 0) == byte,
        forall|i: int| i > 0 ==> #[trigger] seed_byte(n, i) == seed_byte(rest, i - 1),
{
    assert(n / 256 == rest && n % 256 == byte);
}

proof fn seed_is_little_endian(seed: u64, bytes: Seq<u8>)
    requires
        bytes.len() == 8,
        seed == bytes[0] + bytes[1] * 0x100 + bytes[2] * 0x1_0000 + bytes[3] * 0x100_0000 + bytes[4]
            * 0x1_0000_0000 + bytes[5] * 0x100_0000_0000 + bytes[6] * 0x1_0000_0000_0000 + bytes[7]
            * 0x100_0000_0000_0000,
    ensures
        seed_bytes(seed) == bytes,
{
    let s7 = bytes[7] as u64;
    let s6 = (bytes[6] + 256 * s7) as u64;
    let s5 = (bytes[5] + 256 * s6) as u64;
    let s4 = (bytes[4] + 256 * s5) as u64;
    let s3 = (bytes[3] + 256 * s4) as u64;
    let s2 = (bytes[2] + 256 * s3) as u64;
    let s1 = (bytes[1] + 256 * s2) as u64;
    assert(seed == bytes[0] + 256 * s1);
    low_byte(seed, s1, bytes[0]);
    low_byte(s1, s2, bytes[1]);
    low_byte(s2, s3, bytes[2]);
    low_byte(s3, s4, bytes[3]);
    low_byte(s4, s5, bytes[4]);
    low_byte(s5, s6, bytes[5]);
    low_byte(s6, s7, bytes[6]);
    low_byte(s7, 0, bytes[7]);
    assert(seed_bytes(seed) =~= bytes);
}

/// The bucket of a pair of numbers is told by hashing, one behind the other, the seed in eight
/// bytes, the least significant first, the source and the destination, both in 21 bytes, and by
/// the rest of that modulo 4096. A message without a destination counts as one to 21 NULs. The
/// buckets of a message are just those of its pairs.
pub proof fn buckets_are_told_by_hashing(
    ids: Seq<usize>,
    seed: u64,
    seed_octets: Seq<u8>,
    source: Seq<char>,
    destinations: Seq<Seq<char>>,
    bucket: usize,
)
    requires
        are_buckets_of(ids, seed, source, destinations),
        seed_octets.len() == 8,
        seed == seed_octets[0] + seed_octets[1] * 0x100 + seed_octets[2] * 0x1_0000 + seed_octets[3]
            * 0x100_0000 + seed_octets[4] * 0x1_0000_0000 + seed_octets[5] * 0x100_0000_0000
            + seed_octets[6] * 0x1_0000_0000_0000 + seed_octets[7] * 0x100_0000_0000_0000,
    ensures
        destinations.len() > 0 ==> (ids.contains(bucket) <==> exists|i: int|
            0 <= i < destinations.len() && bucket == DefaultHasher::spec_finish(
                seq![
                    seed_octets,
                    text_field(source, 21),
                    text_field(#[trigger] destinations[i], 21),
                ],
            ) % 4096),
        destinations.len() == 0 ==> (ids.contains(bucket) <==> bucket == DefaultHasher::spec_finish(
            seq![
                seed_octets,
                text_field(source, 21),
                seq![0u8, 0, 0, 0, 0, 0, 0, 0, 0, 0, 0, 0, 0, 0, 0, 0, 0, 0, 0, 0, 0],
            ],
        ) % 4096),
{
    seed_is_little_endian(seed, seed_octets);
    let addresses = destination_addresses(destinations);
    if destinations.len() > 0 {
        if ids.contains(bucket) {
            let i = choose|i: int|
                0 <= i < addresses.len() && bucket_for(
                    seed,
                    text_field(source, 21),
                    #[trigger] addresses[i],
                ) == bucket;
            assert(addresses[i] == text_field(destinations[i], 21));
        }
        if exists|i: int|
            0 <= i < destinations.len() && bucket == DefaultHasher::spec_finish(
                seq![
                    seed_octets,
                    text_field(source, 21),
                    text_field(#[trigger] destinations[i], 21),
                ],
            ) % 4096 {
            let i = choose|i: int|
                0 <= i < destinations.len() && bucket == DefaultHasher::spec_finish(
                    seq![
                        seed_octets,
                        text_field(source, 21),
                        text_field(#[trigger] destinations[i], 21),
                    ],
                ) % 4096;
            assert(addresses[i] == text_field(destinations[i], 21));
            assert(bucket_for(seed, text_field(source, 21), addresses[i]) == bucket);
        }
    } else {
        let zeros = seq![0u8, 0, 0, 0, 0, 0, 0, 0, 0, 0, 0, 0, 0, 0, 0, 0, 0, 0, 0, 0, 0];
        assert(addresses[0] =~= zeros);
        assert(bucket_for(seed, text_field(source, 21), addresses[0]) == DefaultHasher::spec_finish(
            seq![seed_octets, text_field(source, 21), zeros],
        ) % 4096);
    }
}

} // verus!
