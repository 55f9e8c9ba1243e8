//! The key-binding table: for each trigger character, an ordered list of
//! chord definitions.  Insertion order is priority order: resolution
//! returns the command of the first entry whose modifier tuple matches
//! exactly, so earlier-registered bindings shadow later ones.

use vstd::prelude::*;

use crate::event::{Event, EventV};

verus! {

/// One chord: a trigger character, the exact modifier tuple it requires,
/// and the command it resolves to.
#[derive(Clone, Debug, PartialEq)]
pub struct KeyBinding {
    pub key: char,
    pub ctrl: bool,
    pub shift: bool,
    pub alt: bool,
    pub event: Event,
}

/// Mathematical image of a [`KeyBinding`].
#[verifier::ext_equal]
pub struct BindingV {
    pub key: char,
    pub ctrl: bool,
    pub shift: bool,
    pub alt: bool,
    pub event: EventV,
}

impl View for KeyBinding {
    type V = BindingV;

    open spec fn view(&self) -> BindingV {
        BindingV {
            key: self.key,
            ctrl: self.ctrl,
            shift: self.shift,
            alt: self.alt,
            event: self.event@,
        }
    }
}

impl DeepView for KeyBinding {
    type V = BindingV;

    open spec fn deep_view(&self) -> BindingV {
        self.view()
    }
}

impl KeyBinding {
    pub fn new(key: char, ctrl: bool, shift: bool, alt: bool, event: Event) -> (r: KeyBinding)
        ensures
            r@ == (BindingV { key, ctrl, shift, alt, event: event@ }),
    {
        KeyBinding { key, ctrl, shift, alt, event }
    }

    /// A copy denoting the same chord.
    pub fn duplicate(&self) -> (r: KeyBinding)
        ensures
            r@ == self@,
    {
        KeyBinding {
            key: self.key,
            ctrl: self.ctrl,
            shift: self.shift,
            alt: self.alt,
            event: self.event.duplicate(),
        }
    }
}

/// The chords bound to one trigger character, in insertion order.
#[derive(Clone, Debug, PartialEq)]
pub struct KeyBucket {
    pub key: char,
    pub bindings: Vec<KeyBinding>,
}

/// Mathematical image of a [`KeyBucket`].
#[verifier::ext_equal]
pub struct BucketV {
    pub key: char,
    pub bindings: Seq<BindingV>,
}

impl View for KeyBucket {
    type V = BucketV;

    open spec fn view(&self) -> BucketV {
        BucketV { key: self.key, bindings: self.bindings.deep_view() }
    }
}

impl DeepView for KeyBucket {
    type V = BucketV;

    open spec fn deep_view(&self) -> BucketV {
        self.view()
    }
}

/// Index of the first bucket at or after `i` whose trigger is `key`, or
/// the number of buckets if none matches.
pub open spec fn bucket_index_from(table: Seq<BucketV>, key: char, i: int) -> int
    decreases table.len() - i,
{
    if i < 0 || i >= table.len() {
        table.len() as int
    } else if table[i].key == key {
        i
    } else {
        bucket_index_from(table, key, i + 1)
    }
}

/// Index of the bucket holding the chords for `key`, or the number of
/// buckets if `key` is unbound.
pub open spec fn bucket_index(table: Seq<BucketV>, key: char) -> int {
    bucket_index_from(table, key, 0)
}

/// The command of the first chord at or after `i` whose modifier tuple is
/// exactly `(ctrl, shift, alt)`, if any.
pub open spec fn resolve_in(
    bindings: Seq<BindingV>,
    ctrl: bool,
    shift: bool,
    alt: bool,
    i: int,
) -> Option<EventV>
    decreases bindings.len() - i,
{
    if i < 0 || i >= bindings.len() {
        None
    } else if bindings[i].ctrl == ctrl && bindings[i].shift == shift && bindings[i].alt == alt {
        Some(bindings[i].event)
    } else {
        resolve_in(bindings, ctrl, shift, alt, i + 1)
    }
}

/// What a released key resolves to: look the trigger character up, then
/// scan its chord list in insertion order for the first exact modifier
/// match.  No match is no command, not an error.
pub open spec fn table_resolve(
    table: Seq<BucketV>,
    key: char,
    ctrl: bool,
    shift: bool,
    alt: bool,
) -> Option<EventV> {
    let bi = bucket_index(table, key);
    if bi < table.len() {
        resolve_in(table[bi].bindings, ctrl, shift, alt, 0)
    } else {
        None
    }
}

/// The table after registering one more chord: appended to its trigger's
/// bucket, or opening a new bucket at the end for a new trigger.
pub open spec fn insert_binding(table: Seq<BucketV>, kb: BindingV) -> Seq<BucketV> {
    let bi = bucket_index(table, kb.key);
    if bi < table.len() {
        table.update(bi, BucketV { key: table[bi].key, bindings: table[bi].bindings.push(kb) })
    } else {
        table.push(BucketV { key: kb.key, bindings: seq![kb] })
    }
}

/// Table well-formedness: one bucket per trigger, and every chord sits in
/// the bucket of its own trigger.
pub open spec fn table_inv(table: Seq<BucketV>) -> bool {
    &&& forall|i: int, j: int| 0 <= i < j < table.len() ==> table[i].key != table[j].key
    &&& forall|i: int, k: int|
        0 <= i < table.len() && 0 <= k < table[i].bindings.len() ==> (#[trigger] table[i].bindings[k]).key
            == table[i].key
}

/// Where `bucket_index` points: at the first bucket for `key`, every
/// earlier bucket having another trigger; or past the end when no bucket
/// has `key`.
pub proof fn lemma_bucket_index_spec(table: Seq<BucketV>, key: char)
    ensures
        0 <= bucket_index(table, key) <= table.len(),
        bucket_index(table, key) < table.len() ==> table[bucket_index(table, key)].key == key,
        forall|j: int| 0 <= j < bucket_index(table, key) ==> table[j].key != key,
{
    lemma_bucket_index_from_spec(table, key, 0);
}

proof fn lemma_bucket_index_from_spec(table: Seq<BucketV>, key: char, i: int)
    requires
        0 <= i <= table.len(),
    ensures
        i <= bucket_index_from(table, key, i) <= table.len(),
        bucket_index_from(table, key, i) < table.len() ==> table[bucket_index_from(
            table,
            key,
            i,
        )].key == key,
        forall|j: int| i <= j < bucket_index_from(table, key, i) ==> table[j].key != key,
    decreases table.len() - i,
{
    if i < table.len() && table[i].key != key {
        lemma_bucket_index_from_spec(table, key, i + 1);
    }
}

/// Registering a chord keeps the table well-formed.
pub proof fn lemma_insert_keeps_inv(table: Seq<BucketV>, kb: BindingV)
    requires
        table_inv(table),
    ensures
        table_inv(insert_binding(table, kb)),
{
    lemma_bucket_index_spec(table, kb.key);
}

/// The binding table.  It is an owned value: the session that holds it is
/// the single writer, and lookups go through `&self`.
#[derive(Clone, Debug, PartialEq)]
pub struct BindingTable {
    pub buckets: Vec<KeyBucket>,
}

impl View for BindingTable {
    type V = Seq<BucketV>;

    open spec fn view(&self) -> Seq<BucketV> {
        self.buckets.deep_view()
    }
}

/// Index of the bucket for `key`, or the number of buckets.
fn bucket_pos(buckets: &Vec<KeyBucket>, key: char) -> (i: usize)
    ensures
        i as int == bucket_index(buckets.deep_view(), key),
        i <= buckets.len(),
{
    let ghost table = buckets.deep_view();
    let mut i: usize = 0;
    while i < buckets.len()
        invariant
            i <= buckets.len(),
            table == buckets.deep_view(),
            bucket_index(table, key) == bucket_index_from(table, key, i as int),
        decreases buckets.len() - i,
    {
        if buckets[i].key == key {
            proof {
                assert(table[i as int] == buckets@[i as int]@);
                assert(bucket_index_from(table, key, i as int) == i as int);
            }
            return i;
        }
        proof {
            assert(table[i as int] == buckets@[i as int]@);
            assert(bucket_index_from(table, key, i as int) == bucket_index_from(
                table,
                key,
                i as int + 1,
            ));
        }
        i += 1;
    }
    proof {
        assert(bucket_index_from(table, key, i as int) == table.len() as int);
    }
    i
}

impl BindingTable {
    pub open spec fn wf(&self) -> bool {
        table_inv(self@)
    }

    /// An empty table: no trigger is bound.
    pub fn new() -> (r: BindingTable)
        ensures
            r@ == Seq::<BucketV>::empty(),
            r.wf(),
    {
        let r = BindingTable { buckets: Vec::new() };
        proof {
            assert(r@ =~= Seq::<BucketV>::empty());
        }
        r
    }

    /// A copy holding the same chords in the same order.
    pub fn duplicate(&self) -> (r: BindingTable)
        ensures
            r@ == self@,
    {
        let mut buckets: Vec<KeyBucket> = Vec::new();
        let mut i: usize = 0;
        while i < self.buckets.len()
            invariant
                i <= self.buckets.len(),
                buckets@.len() == i as int,
                forall|j: int| 0 <= j < i as int ==> buckets.deep_view()[j] == self@[j],
            decreases self.buckets.len() - i,
        {
            let src_bucket = &self.buckets[i];
            let mut bindings: Vec<KeyBinding> = Vec::new();
            let mut k: usize = 0;
            while k < src_bucket.bindings.len()
                invariant
                    k <= src_bucket.bindings.len(),
                    bindings@.len() == k as int,
                    forall|j: int|
                        0 <= j < k as int ==> bindings.deep_view()[j]
                            == src_bucket.bindings.deep_view()[j],
                decreases src_bucket.bindings.len() - k,
            {
                let ghost prev = bindings.deep_view();
                bindings.push(src_bucket.bindings[k].duplicate());
                k += 1;
                proof {
                    assert forall|j: int|
                        0 <= j < k as int implies bindings.deep_view()[j]
                        == src_bucket.bindings.deep_view()[j] by {
                        if j < k as int - 1 {
                            assert(bindings.deep_view()[j] == prev[j]);
                        } else {
                            assert(bindings.deep_view()[j] == bindings@[j].deep_view());
                            assert(src_bucket.bindings.deep_view()[j] == src_bucket.bindings@[j].deep_view());
                        }
                    }
                }
            }
            proof {
                assert(bindings.deep_view() =~= src_bucket.bindings.deep_view());
            }
            buckets.push(KeyBucket { key: src_bucket.key, bindings });
            i += 1;
            proof {
                assert(buckets.deep_view()[i - 1] == self@[i - 1]);
            }
        }
        let r = BindingTable { buckets };
        proof {
            assert(r@ =~= self@);
        }
        r
    }

    /// Register one chord, behind every chord already bound to the same
    /// trigger.
    pub fn insert(&mut self, kb: KeyBinding)
        requires
            old(self).wf(),
        ensures
            final(self).wf(),
            final(self)@ == insert_binding(old(self)@, kb@),
    {
        proof {
            lemma_insert_keeps_inv(self@, kb@);
        }
        let bi = bucket_pos(&self.buckets, kb.key);
        if bi < self.buckets.len() {
            let mut bucket = KeyBucket { key: kb.key, bindings: Vec::new() };
            self.buckets.set_and_swap(bi, &mut bucket);
            bucket.bindings.push(kb);
            self.buckets.set_and_swap(bi, &mut bucket);
            proof {
                assert(self@[bi as int].bindings =~= old(self)@[bi as int].bindings.push(kb@));
                assert(self@[bi as int] =~= (BucketV {
                    key: old(self)@[bi as int].key,
                    bindings: old(self)@[bi as int].bindings.push(kb@),
                }));
                assert(self@ =~= insert_binding(old(self)@, kb@));
            }
        } else {
            let key = kb.key;
            let mut bindings: Vec<KeyBinding> = Vec::new();
            bindings.push(kb);
            self.buckets.push(KeyBucket { key, bindings });
            proof {
                assert(self@[self@.len() - 1].bindings =~= seq![kb@]);
                assert(self@[self@.len() - 1] =~= (BucketV { key: kb@.key, bindings: seq![kb@] }));
                assert(self@ =~= insert_binding(old(self)@, kb@));
            }
        }
    }

    /// Resolve a released key against the table: the first chord of the
    /// key's bucket whose `(ctrl, shift, alt)` tuple matches exactly, in
    /// insertion order.  `None` when the key is unbound or nothing
    /// matches.
    pub fn resolve(&self, key: char, ctrl: bool, shift: bool, alt: bool) -> (r: Option<Event>)
        ensures
            r.deep_view() == table_resolve(self@, key, ctrl, shift, alt),
    {
        let bi = bucket_pos(&self.buckets, key);
        if bi >= self.buckets.len() {
            return None;
        }
        let bindings = &self.buckets[bi].bindings;
        proof {
            assert(self@[bi as int] == self.buckets@[bi as int]@);
            assert(self@[bi as int].bindings == bindings.deep_view());
        }
        let mut i: usize = 0;
        while i < bindings.len()
            invariant
                i <= bindings.len(),
                bi < self.buckets.len(),
                bi as int == bucket_index(self@, key),
                self@.len() == self.buckets@.len(),
                self@[bi as int].bindings == bindings.deep_view(),
                bindings == &self.buckets[bi as int].bindings,
                resolve_in(bindings.deep_view(), ctrl, shift, alt, 0) == resolve_in(
                    bindings.deep_view(),
                    ctrl,
                    shift,
                    alt,
                    i as int,
                ),
            decreases bindings.len() - i,
        {
            let b = &bindings[i];
            if b.ctrl == ctrl && b.shift == shift && b.alt == alt {
                proof {
                    assert(bindings.deep_view()[i as int] == bindings@[i as int]@);
                    assert(resolve_in(bindings.deep_view(), ctrl, shift, alt, i as int) == Some(
                        bindings.deep_view()[i as int].event,
                    ));
                }
                return Some(b.event.duplicate());
            }
            proof {
                assert(bindings.deep_view()[i as int] == bindings@[i as int]@);
                assert(resolve_in(bindings.deep_view(), ctrl, shift, alt, i as int) == resolve_in(
                    bindings.deep_view(),
                    ctrl,
                    shift,
                    alt,
                    i as int + 1,
                ));
            }
            i += 1;
        }
        proof {
            assert(resolve_in(bindings.deep_view(), ctrl, shift, alt, i as int) is None);
        }
        None
    }

    /// Resolve a raw key release as the input source reports it: the
    /// platform's control or command modifier both count as ctrl.
    pub fn resolve_key_release(
        &self,
        key: char,
        control: bool,
        command: bool,
        shift: bool,
        alt: bool,
    ) -> (r: Option<Event>)
        ensures
            r.deep_view() == table_resolve(self@, key, control || command, shift, alt),
    {
        self.resolve(key, control || command, shift, alt)
    }
}

} // verus!
