//! The invites of one guild, keyed by invite code.

use vstd::prelude::*;
use crate::invite::{FetchedInvite, Invite};

verus! {

/// One invite of a guild together with its code.
#[derive(Clone, Debug)]
pub struct InviteEntry {
    pub code: String,
    pub invite: Invite,
}

/// Whether some entry carries `code`.
pub open spec fn has_code(entries: Seq<InviteEntry>, code: Seq<char>) -> bool {
    exists|i: int| 0 <= i < entries.len() && (#[trigger] entries[i]).code@ == code
}

/// Where `code` stands among the entries, if it does.
pub open spec fn index_of(entries: Seq<InviteEntry>, code: Seq<char>) -> int {
    choose|i: int| 0 <= i < entries.len() && (#[trigger] entries[i]).code@ == code
}

/// No two entries carry the same code.
pub open spec fn distinct_codes(entries: Seq<InviteEntry>) -> bool {
    forall|i: int, j: int|
        0 <= i < j < entries.len() ==> (#[trigger] entries[i]).code@ != (#[trigger] entries[j]).code@
}

/// The mapping from code to invite that the entries stand for.
pub open spec fn entries_map(entries: Seq<InviteEntry>) -> Map<Seq<char>, Invite> {
    Map::new(|code: Seq<char>| has_code(entries, code), |code: Seq<char>| entries[index_of(entries, code)].invite)
}

/// An entry of a list with distinct codes is what the mapping holds for its
/// code.
pub proof fn lemma_entry_in_map(entries: Seq<InviteEntry>, i: int)
    requires
        distinct_codes(entries),
        0 <= i < entries.len(),
    ensures
        entries_map(entries).dom().contains(entries[i].code@),
        entries_map(entries)[entries[i].code@] == entries[i].invite,
        index_of(entries, entries[i].code@) == i,
{
    let code = entries[i].code@;
    let k = index_of(entries, code);
    assert(0 <= k < entries.len() && entries[k].code@ == code);
    if k < i {
        assert(entries[k].code@ != entries[i].code@);
    } else if i < k {
        assert(entries[i].code@ != entries[k].code@);
    }
}

/// Appending an entry with a new code adds one key to the mapping.
pub proof fn lemma_map_push(entries: Seq<InviteEntry>, entry: InviteEntry)
    requires
        distinct_codes(entries),
        !has_code(entries, entry.code@),
    ensures
        distinct_codes(entries.push(entry)),
        entries_map(entries.push(entry)) == entries_map(entries).insert(entry.code@, entry.invite),
{
    let after = entries.push(entry);
    assert forall|i: int, j: int| 0 <= i < j < after.len() implies (#[trigger] after[i]).code@ != (
    #[trigger] after[j]).code@ by {
        if j == entries.len() {
            assert(entries[i].code@ != entry.code@);
        } else {
            assert(entries[i].code@ != entries[j].code@);
        }
    }
    let lhs = entries_map(after);
    let rhs = entries_map(entries).insert(entry.code@, entry.invite);
    assert forall|code: Seq<char>| lhs.dom().contains(code) <==> rhs.dom().contains(code) by {
        if lhs.dom().contains(code) {
            let k = index_of(after, code);
            if k < entries.len() {
                assert(entries[k].code@ == code);
            }
        }
        if rhs.dom().contains(code) {
            if code == entry.code@ {
                assert(after[entries.len() as int].code@ == code);
            } else {
                let k = index_of(entries, code);
                assert(after[k].code@ == code);
            }
        }
    }
    assert forall|code: Seq<char>| lhs.dom().contains(code) implies lhs[code] == rhs[code] by {
        let k = index_of(after, code);
        lemma_entry_in_map(after, k);
        if k < entries.len() {
            assert(entries[k] == after[k]);
            lemma_entry_in_map(entries, k);
        }
    }
    assert(lhs =~= rhs);
}

/// Replacing an entry by one with the same code overwrites that key.
pub proof fn lemma_map_update(entries: Seq<InviteEntry>, i: int, entry: InviteEntry)
    requires
        distinct_codes(entries),
        0 <= i < entries.len(),
        entries[i].code@ == entry.code@,
    ensures
        distinct_codes(entries.update(i, entry)),
        entries_map(entries.update(i, entry)) == entries_map(entries).insert(entry.code@, entry.invite),
{
    let after = entries.update(i, entry);
    assert forall|a: int, b: int| 0 <= a < b < after.len() implies (#[trigger] after[a]).code@ != (
    #[trigger] after[b]).code@ by {
        assert(entries[a].code@ != entries[b].code@);
    }
    let lhs = entries_map(after);
    let rhs = entries_map(entries).insert(entry.code@, entry.invite);
    assert forall|code: Seq<char>| lhs.dom().contains(code) <==> rhs.dom().contains(code) by {
        if lhs.dom().contains(code) {
            let k = index_of(after, code);
            assert(entries[k].code@ == code);
        }
        if rhs.dom().contains(code) {
            if code == entry.code@ {
                assert(after[i].code@ == code);
            } else {
                let k = index_of(entries, code);
                assert(after[k].code@ == code);
            }
        }
    }
    assert forall|code: Seq<char>| lhs.dom().contains(code) implies lhs[code] == rhs[code] by {
        let k = index_of(after, code);
        lemma_entry_in_map(after, k);
        if k != i {
            assert(entries[k] == after[k]);
            lemma_entry_in_map(entries, k);
            assert(entries[k].code@ != entries[i].code@);
        }
    }
    assert(lhs =~= rhs);
}

/// Taking an entry out removes its key from the mapping.
pub proof fn lemma_map_remove(entries: Seq<InviteEntry>, i: int)
    requires
        distinct_codes(entries),
        0 <= i < entries.len(),
    ensures
        distinct_codes(entries.remove(i)),
        entries_map(entries.remove(i)) == entries_map(entries).remove(entries[i].code@),
{
    let after = entries.remove(i);
    assert forall|a: int, b: int| 0 <= a < b < after.len() implies (#[trigger] after[a]).code@ != (
    #[trigger] after[b]).code@ by {
        let a0 = if a < i { a } else { a + 1 };
        let b0 = if b < i { b } else { b + 1 };
        assert(after[a] == entries[a0] && after[b] == entries[b0]);
        assert(entries[a0].code@ != entries[b0].code@);
    }
    let lhs = entries_map(after);
    let rhs = entries_map(entries).remove(entries[i].code@);
    assert forall|code: Seq<char>| lhs.dom().contains(code) <==> rhs.dom().contains(code) by {
        if lhs.dom().contains(code) {
            let k = index_of(after, code);
            let k0 = if k < i { k } else { k + 1 };
            assert(after[k] == entries[k0]);
            assert(entries[k0].code@ == code);
            if k0 < i {
                assert(entries[k0].code@ != entries[i].code@);
            } else {
                assert(entries[i].code@ != entries[k0].code@);
            }
        }
        if rhs.dom().contains(code) {
            let k0 = index_of(entries, code);
            assert(k0 != i);
            let k = if k0 < i { k0 } else { k0 - 1 };
            assert(after[k] == entries[k0]);
            assert(after[k].code@ == code);
        }
    }
    assert forall|code: Seq<char>| lhs.dom().contains(code) implies lhs[code] == rhs[code] by {
        let k = index_of(after, code);
        lemma_entry_in_map(after, k);
        let k0 = if k < i { k } else { k + 1 };
        assert(after[k] == entries[k0]);
        lemma_entry_in_map(entries, k0);
    }
    assert(lhs =~= rhs);
}

/// A list with distinct codes stands for a finite mapping with one key per
/// entry.
pub proof fn lemma_map_len(entries: Seq<InviteEntry>)
    requires
        distinct_codes(entries),
    ensures
        entries_map(entries).dom().finite(),
        entries_map(entries).dom().len() == entries.len(),
    decreases entries.len(),
{
    if entries.len() == 0 {
        assert(entries_map(entries).dom() =~= Set::<Seq<char>>::empty());
    } else {
        let front = entries.drop_last();
        let last = entries.last();
        assert forall|i: int, j: int| 0 <= i < j < front.len() implies (#[trigger] front[i]).code@ != (
        #[trigger] front[j]).code@ by {
            assert(entries[i].code@ != entries[j].code@);
        }
        if has_code(front, last.code@) {
            let k = index_of(front, last.code@);
            assert(entries[k].code@ != entries[entries.len() - 1].code@);
        }
        lemma_map_len(front);
        lemma_map_push(front, last);
        assert(front.push(last) =~= entries);
        assert(!entries_map(front).dom().contains(last.code@));
        assert(entries_map(entries).dom() =~= entries_map(front).dom().insert(last.code@));
    }
}

/// The invites of one guild: a mapping from invite code to invite.
///
/// The mapping is held as a list of entries in which no code occurs twice.
#[derive(Debug)]
pub struct GuildInvites {
    entries: Vec<InviteEntry>,
}

impl View for GuildInvites {
    type V = Map<Seq<char>, Invite>;

    open spec fn view(&self) -> Map<Seq<char>, Invite> {
        entries_map(self.entries())
    }
}

impl GuildInvites {
    /// The entries in the order in which they are stored.
    pub closed spec fn entries(&self) -> Seq<InviteEntry> {
        self.entries@
    }

    /// No code occurs twice among the entries.
    pub open spec fn wf(&self) -> bool {
        distinct_codes(self.entries())
    }

    /// A guild without invites.
    pub fn new() -> (r: GuildInvites)
        ensures
            r.wf(),
            r@ == Map::<Seq<char>, Invite>::empty(),
            r.entries().len() == 0,
    {
        let r = GuildInvites { entries: Vec::new() };
        assert(r@ =~= Map::<Seq<char>, Invite>::empty());
        r
    }

    /// The entries, in no particular order.
    pub fn as_entries(&self) -> (r: &Vec<InviteEntry>)
        ensures
            r@ == self.entries(),
    {
        &self.entries
    }

    /// The number of invites.
    pub fn len(&self) -> (n: usize)
        requires
            self.wf(),
        ensures
            self@.dom().finite(),
            n == self@.dom().len(),
            n == self.entries().len(),
    {
        proof {
            lemma_map_len(self.entries@);
        }
        self.entries.len()
    }

    fn position(&self, code: &String) -> (r: Option<usize>)
        requires
            self.wf(),
        ensures
            match r {
                Some(i) => i < self.entries().len() && self.entries()[i as int].code@ == code@
                    && self@.dom().contains(code@) && self@[code@] == self.entries()[i as int].invite,
                None => !has_code(self.entries(), code@) && !self@.dom().contains(code@),
            },
    {
        let n = self.entries.len();
        let mut i: usize = 0;
        while i < n
            invariant
                self.wf(),
                n == self.entries@.len(),
                i <= n,
                forall|k: int| 0 <= k < i ==> (#[trigger] self.entries@[k]).code@ != code@,
            decreases n - i,
        {
            if self.entries[i].code == *code {
                proof {
                    lemma_entry_in_map(self.entries@, i as int);
                }
                return Some(i);
            }
            i += 1;
        }
        None
    }

    /// Whether the guild has an invite with this code.
    pub fn contains(&self, code: &String) -> (r: bool)
        requires
            self.wf(),
        ensures
            r == self@.dom().contains(code@),
    {
        self.position(code).is_some()
    }

    /// The invite with this code, if the guild has one.
    pub fn get(&self, code: &String) -> (r: Option<Invite>)
        requires
            self.wf(),
        ensures
            r == (if self@.dom().contains(code@) {
                Some(self@[code@])
            } else {
                None
            }),
    {
        match self.position(code) {
            Some(i) => Some(self.entries[i].invite),
            None => None,
        }
    }

    /// Stores `invite` under `code`, replacing what was stored there.
    pub fn insert(&mut self, code: String, invite: Invite)
        requires
            old(self).wf(),
        ensures
            final(self).wf(),
            final(self)@ == old(self)@.insert(code@, invite),
    {
        match self.position(&code) {
            Some(i) => {
                let entry = InviteEntry { code, invite };
                proof {
                    lemma_map_update(self.entries@, i as int, entry);
                }
                self.entries.set(i, entry);
            },
            None => {
                let entry = InviteEntry { code, invite };
                proof {
                    lemma_map_push(self.entries@, entry);
                }
                self.entries.push(entry);
            },
        }
    }

    /// Removes the invite with this code. Returns whether there was one.
    pub fn remove(&mut self, code: &String) -> (removed: bool)
        requires
            old(self).wf(),
        ensures
            final(self).wf(),
            removed == old(self)@.dom().contains(code@),
            final(self)@ == old(self)@.remove(code@),
    {
        match self.position(code) {
            Some(i) => {
                proof {
                    lemma_map_remove(self.entries@, i as int);
                }
                self.entries.remove(i);
                true
            },
            None => {
                assert(self@.remove(code@) =~= self@);
                false
            },
        }
    }

    /// A copy of the mapping, independent of later changes to `self`.
    pub fn snapshot(&self) -> (r: GuildInvites)
        requires
            self.wf(),
        ensures
            r.wf(),
            r@ == self@,
            r.entries() == self.entries(),
    {
        let n = self.entries.len();
        let mut copy: Vec<InviteEntry> = Vec::new();
        let mut i: usize = 0;
        while i < n
            invariant
                n == self.entries@.len(),
                i <= n,
                copy@ == self.entries@.subrange(0, i as int),
            decreases n - i,
        {
            let entry = InviteEntry {
                code: self.entries[i].code.clone(),
                invite: self.entries[i].invite,
            };
            assert(entry == self.entries@[i as int]);
            copy.push(entry);
            assert(copy@ =~= self.entries@.subrange(0, i + 1));
            i += 1;
        }
        assert(copy@ =~= self.entries@);
        GuildInvites { entries: copy }
    }

    /// The mapping that a listing stands for. Where a code is listed more
    /// than once, the last listing counts.
    pub fn from_entries(list: &Vec<InviteEntry>) -> (r: GuildInvites)
        ensures
            r.wf(),
            r@ == collected(list@),
    {
        let n = list.len();
        let mut r = GuildInvites::new();
        let mut i: usize = 0;
        while i < n
            invariant
                n == list@.len(),
                i <= n,
                r.wf(),
                r@ == collected(list@.subrange(0, i as int)),
            decreases n - i,
        {
            assert(list@.subrange(0, i + 1).drop_last() =~= list@.subrange(0, i as int));
            r.insert(list[i].code.clone(), list[i].invite);
            i += 1;
        }
        assert(list@.subrange(0, n as int) =~= list@);
        r
    }

    /// Sets the use count of the invite with this code. Returns whether
    /// there was such an invite; if not, nothing changes.
    pub fn update_uses(&mut self, code: &String, uses: u64) -> (updated: bool)
        requires
            old(self).wf(),
        ensures
            final(self).wf(),
            updated == old(self)@.dom().contains(code@),
            final(self)@ == with_uses(old(self)@, code@, uses),
    {
        match self.position(code) {
            Some(i) => {
                let prior = self.entries[i].invite;
                let entry = InviteEntry {
                    code: self.entries[i].code.clone(),
                    invite: Invite { uses, ..prior },
                };
                proof {
                    lemma_map_update(self.entries@, i as int, entry);
                }
                self.entries.set(i, entry);
                true
            },
            None => false,
        }
    }
}

/// The mapping with the use count of `code` set to `uses`; unchanged if
/// `code` is not a key.
pub open spec fn with_uses(invites: Map<Seq<char>, Invite>, code: Seq<char>, uses: u64) -> Map<
    Seq<char>,
    Invite,
> {
    if invites.dom().contains(code) {
        invites.insert(code, Invite { uses, ..invites[code] })
    } else {
        invites
    }
}

/// The mapping that a listing stands for: the entries stored one after the
/// other, a later one replacing an earlier one with the same code.
pub open spec fn collected(entries: Seq<InviteEntry>) -> Map<Seq<char>, Invite>
    decreases entries.len(),
{
    if entries.len() == 0 {
        Map::empty()
    } else {
        collected(entries.drop_last()).insert(entries.last().code@, entries.last().invite)
    }
}

/// Whether `entries` is the cached form of `listing`, item by item.
pub open spec fn converted(listing: Seq<FetchedInvite>, entries: Seq<InviteEntry>) -> bool {
    &&& entries.len() == listing.len()
    &&& forall|i: int|
        0 <= i < listing.len() ==> (#[trigger] entries[i]).code@ == listing[i].code@ && entries[i].invite
            == listing[i].invite()
}

/// Turns the platform's invite listing into cache entries, item by item and
/// in the same order. Returns `None` exactly when the expiry of some listed
/// invite lies beyond what a timestamp can hold.
pub fn entries_from_fetched(listing: &Vec<FetchedInvite>) -> (r: Option<Vec<InviteEntry>>)
    ensures
        r is Some <==> forall|i: int| 0 <= i < listing@.len() ==> (#[trigger] listing@[i]).representable(),
        r matches Some(entries) ==> converted(listing@, entries@),
{
    let n = listing.len();
    let mut entries: Vec<InviteEntry> = Vec::new();
    let mut i: usize = 0;
    while i < n
        invariant
            n == listing@.len(),
            i <= n,
            converted(listing@.subrange(0, i as int), entries@),
            forall|k: int| 0 <= k < i ==> (#[trigger] listing@[k]).representable(),
        decreases n - i,
    {
        match Invite::from_fetched(&listing[i]) {
            Some(invite) => {
                entries.push(InviteEntry { code: listing[i].code.clone(), invite });
            },
            None => {
                assert(!listing@[i as int].representable());
                return None;
            },
        }
        i += 1;
    }
    assert(listing@.subrange(0, n as int) =~= listing@);
    Some(entries)
}

} // verus!
