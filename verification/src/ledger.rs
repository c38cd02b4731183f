//! The attribution ledger: who invited whom.
//!
//! The ledger holds at most one row per member and guild. Crediting a join
//! again, after the member left and came back, replaces the row.

use vstd::prelude::*;

verus! {

/// The fact that a member's join to a guild is credited to an invite and to
/// the member who created it.
#[derive(Clone, Debug)]
pub struct AttributionRecord {
    pub user: u64,
    pub guild: u64,
    pub inviter: u64,
    /// The code of the invite that was used.
    pub invite: String,
    pub used_at: i64,
}

/// What the ledger holds for one member of one guild.
pub struct Credit {
    pub inviter: u64,
    pub invite: Seq<char>,
    pub used_at: i64,
}

impl AttributionRecord {
    /// The member and guild that the record is about: the ledger's key.
    pub open spec fn key(&self) -> (u64, u64) {
        (self.user, self.guild)
    }

    /// What the record says about its member and guild.
    pub open spec fn credit(&self) -> Credit {
        Credit { inviter: self.inviter, invite: self.invite@, used_at: self.used_at }
    }
}

/// Whether some row is about `key`.
pub open spec fn has_key(rows: Seq<AttributionRecord>, key: (u64, u64)) -> bool {
    exists|i: int| 0 <= i < rows.len() && (#[trigger] rows[i]).key() == key
}

/// Where the row about `key` stands, if there is one.
pub open spec fn row_of(rows: Seq<AttributionRecord>, key: (u64, u64)) -> int {
    choose|i: int| 0 <= i < rows.len() && (#[trigger] rows[i]).key() == key
}

/// No two rows are about the same member and guild.
pub open spec fn distinct_keys(rows: Seq<AttributionRecord>) -> bool {
    forall|i: int, j: int| 0 <= i < j < rows.len() ==> (#[trigger] rows[i]).key() != (#[trigger] rows[j]).key()
}

/// The mapping from member and guild to credit that the rows stand for.
pub open spec fn rows_map(rows: Seq<AttributionRecord>) -> Map<(u64, u64), Credit> {
    Map::new(|key: (u64, u64)| has_key(rows, key), |key: (u64, u64)| rows[row_of(rows, key)].credit())
}

/// The ledger after `record` was written to it: the row for the record's
/// member and guild now says what the record says, whether or not there was
/// such a row before.
pub open spec fn upserted(ledger: Map<(u64, u64), Credit>, record: AttributionRecord) -> Map<(u64, u64), Credit> {
    ledger.insert(record.key(), record.credit())
}

/// Whether the ledger credits some join to `inviter` through the invite
/// `code`.
pub open spec fn credits(ledger: Map<(u64, u64), Credit>, inviter: u64, code: Seq<char>) -> bool {
    exists|key: (u64, u64)|
        ledger.dom().contains(key) && (#[trigger] ledger[key]).inviter == inviter && ledger[key].invite == code
}

/// A row of a list with distinct keys is what the mapping holds for its key.
pub proof fn lemma_row_in_map(rows: Seq<AttributionRecord>, i: int)
    requires
        distinct_keys(rows),
        0 <= i < rows.len(),
    ensures
        rows_map(rows).dom().contains(rows[i].key()),
        rows_map(rows)[rows[i].key()] == rows[i].credit(),
        row_of(rows, rows[i].key()) == i,
{
    let key = rows[i].key();
    let k = row_of(rows, key);
    assert(0 <= k < rows.len() && rows[k].key() == key);
    if k < i {
        assert(rows[k].key() != rows[i].key());
    } else if i < k {
        assert(rows[i].key() != rows[k].key());
    }
}

/// Appending a row with a new key writes that row to the mapping.
pub proof fn lemma_rows_push(rows: Seq<AttributionRecord>, record: AttributionRecord)
    requires
        distinct_keys(rows),
        !has_key(rows, record.key()),
    ensures
        distinct_keys(rows.push(record)),
        rows_map(rows.push(record)) == upserted(rows_map(rows), record),
{
    let after = rows.push(record);
    assert forall|i: int, j: int| 0 <= i < j < after.len() implies (#[trigger] after[i]).key() != (
    #[trigger] after[j]).key() by {
        if j == rows.len() {
            assert(rows[i].key() != record.key());
        } else {
            assert(rows[i].key() != rows[j].key());
        }
    }
    let lhs = rows_map(after);
    let rhs = upserted(rows_map(rows), record);
    assert forall|key: (u64, u64)| lhs.dom().contains(key) <==> rhs.dom().contains(key) by {
        if lhs.dom().contains(key) {
            let k = row_of(after, key);
            if k < rows.len() {
                assert(rows[k].key() == key);
            }
        }
        if rhs.dom().contains(key) {
            if key == record.key() {
                assert(after[rows.len() as int].key() == key);
            } else {
                let k = row_of(rows, key);
                assert(after[k].key() == key);
            }
        }
    }
    assert forall|key: (u64, u64)| lhs.dom().contains(key) implies lhs[key] == rhs[key] by {
        let k = row_of(after, key);
        lemma_row_in_map(after, k);
        if k < rows.len() {
            assert(rows[k] == after[k]);
            lemma_row_in_map(rows, k);
        }
    }
    assert(lhs =~= rhs);
}

/// Replacing a row by one with the same key writes that row to the mapping.
pub proof fn lemma_rows_update(rows: Seq<AttributionRecord>, i: int, record: AttributionRecord)
    requires
        distinct_keys(rows),
        0 <= i < rows.len(),
        rows[i].key() == record.key(),
    ensures
        distinct_keys(rows.update(i, record)),
        rows_map(rows.update(i, record)) == upserted(rows_map(rows), record),
{
    let after = rows.update(i, record);
    assert forall|a: int, b: int| 0 <= a < b < after.len() implies (#[trigger] after[a]).key() != (
    #[trigger] after[b]).key() by {
        assert(rows[a].key() != rows[b].key());
    }
    let lhs = rows_map(after);
    let rhs = upserted(rows_map(rows), record);
    assert forall|key: (u64, u64)| lhs.dom().contains(key) <==> rhs.dom().contains(key) by {
        if lhs.dom().contains(key) {
            let k = row_of(after, key);
            assert(rows[k].key() == key);
        }
        if rhs.dom().contains(key) {
            if key == record.key() {
                assert(after[i].key() == key);
            } else {
                let k = row_of(rows, key);
                assert(after[k].key() == key);
            }
        }
    }
    assert forall|key: (u64, u64)| lhs.dom().contains(key) implies lhs[key] == rhs[key] by {
        let k = row_of(after, key);
        lemma_row_in_map(after, k);
        if k != i {
            assert(rows[k] == after[k]);
            lemma_row_in_map(rows, k);
            assert(rows[k].key() != rows[i].key());
        }
    }
    assert(lhs =~= rhs);
}

/// A list with distinct keys stands for a finite mapping with one key per
/// row.
pub proof fn lemma_rows_len(rows: Seq<AttributionRecord>)
    requires
        distinct_keys(rows),
    ensures
        rows_map(rows).dom().finite(),
        rows_map(rows).dom().len() == rows.len(),
    decreases rows.len(),
{
    if rows.len() == 0 {
        assert(rows_map(rows).dom() =~= Set::<(u64, u64)>::empty());
    } else {
        let front = rows.drop_last();
        let last = rows.last();
        assert forall|i: int, j: int| 0 <= i < j < front.len() implies (#[trigger] front[i]).key() != (
        #[trigger] front[j]).key() by {
            assert(rows[i].key() != rows[j].key());
        }
        if has_key(front, last.key()) {
            let k = row_of(front, last.key());
            assert(rows[k].key() != rows[rows.len() - 1].key());
        }
        lemma_rows_len(front);
        lemma_rows_push(front, last);
        assert(front.push(last) =~= rows);
        assert(!rows_map(front).dom().contains(last.key()));
        assert(rows_map(rows).dom() =~= rows_map(front).dom().insert(last.key()));
    }
}

/// Writing a record and then another one for the same member and guild
/// leaves one row for them, which says what the second record says: the
/// ledger is the same as if only the second had been written, and it has as
/// many rows as after the first.
pub proof fn lemma_upsert_overwrites(
    ledger: Map<(u64, u64), Credit>,
    first: AttributionRecord,
    second: AttributionRecord,
)
    requires
        ledger.dom().finite(),
        first.key() == second.key(),
    ensures
        upserted(upserted(ledger, first), second) == upserted(ledger, second),
        upserted(upserted(ledger, first), second)[second.key()] == second.credit(),
        upserted(upserted(ledger, first), second).dom() == upserted(ledger, first).dom(),
        upserted(upserted(ledger, first), second).dom().len() == upserted(ledger, first).dom().len(),
        upserted(upserted(ledger, first), second).remove(second.key()) == ledger.remove(second.key()),
{
    let once = upserted(ledger, first);
    let twice = upserted(once, second);
    assert(twice =~= upserted(ledger, second));
    assert(twice.dom() =~= once.dom());
    assert(twice.remove(second.key()) =~= ledger.remove(second.key()));
}

/// Writing the same record twice is the same as writing it once.
pub proof fn lemma_upsert_idempotent(ledger: Map<(u64, u64), Credit>, record: AttributionRecord)
    ensures
        upserted(upserted(ledger, record), record) == upserted(ledger, record),
{
    assert(upserted(upserted(ledger, record), record) =~= upserted(ledger, record));
}

/// Whether `code` is one of `codes`.
pub open spec fn lists_code(codes: Seq<String>, code: Seq<char>) -> bool {
    exists|i: int| 0 <= i < codes.len() && (#[trigger] codes[i])@ == code
}

/// No code occurs twice in `codes`.
pub open spec fn no_code_twice(codes: Seq<String>) -> bool {
    forall|i: int, j: int| 0 <= i < j < codes.len() ==> (#[trigger] codes[i])@ != (#[trigger] codes[j])@
}

/// Whether some row credits a join to `inviter` through the invite `code`.
pub open spec fn row_credits(rows: Seq<AttributionRecord>, inviter: u64, code: Seq<char>) -> bool {
    exists|i: int| 0 <= i < rows.len() && (#[trigger] rows[i]).inviter == inviter && rows[i].invite@ == code
}

/// What the rows credit, the mapping credits, and the other way round.
pub proof fn lemma_row_credits(rows: Seq<AttributionRecord>, inviter: u64, code: Seq<char>)
    requires
        distinct_keys(rows),
    ensures
        row_credits(rows, inviter, code) <==> credits(rows_map(rows), inviter, code),
{
    let ledger = rows_map(rows);
    if row_credits(rows, inviter, code) {
        let i = choose|i: int| 0 <= i < rows.len() && (#[trigger] rows[i]).inviter == inviter && rows[i].invite@
            == code;
        lemma_row_in_map(rows, i);
        let key = rows[i].key();
        assert(ledger.dom().contains(key) && ledger[key].inviter == inviter && ledger[key].invite == code);
    }
    if credits(ledger, inviter, code) {
        let key = choose|key: (u64, u64)|
            ledger.dom().contains(key) && (#[trigger] ledger[key]).inviter == inviter && ledger[key].invite
                == code;
        let i = row_of(rows, key);
        assert(rows[i].key() == key);
        lemma_row_in_map(rows, i);
        assert(rows[i].inviter == inviter && rows[i].invite@ == code);
    }
}

/// Whether `code` is one of `codes`.
pub fn code_listed(codes: &Vec<String>, code: &String) -> (r: bool)
    ensures
        r == lists_code(codes@, code@),
{
    let n = codes.len();
    let mut i: usize = 0;
    while i < n
        invariant
            n == codes@.len(),
            i <= n,
            forall|k: int| 0 <= k < i ==> (#[trigger] codes@[k])@ != code@,
        decreases n - i,
    {
        if codes[i] == *code {
            return true;
        }
        i += 1;
    }
    false
}

/// The attribution ledger, held in memory: a mapping from member and guild
/// to the credit for that member's join.
#[derive(Debug)]
pub struct AttributionLedger {
    rows: Vec<AttributionRecord>,
}

impl View for AttributionLedger {
    type V = Map<(u64, u64), Credit>;

    open spec fn view(&self) -> Map<(u64, u64), Credit> {
        rows_map(self.rows())
    }
}

impl AttributionLedger {
    /// The rows in the order in which they are stored.
    pub closed spec fn rows(&self) -> Seq<AttributionRecord> {
        self.rows@
    }

    /// No two rows are about the same member and guild.
    pub open spec fn wf(&self) -> bool {
        distinct_keys(self.rows())
    }

    /// A ledger without rows.
    pub fn new() -> (r: AttributionLedger)
        ensures
            r.wf(),
            r@ == Map::<(u64, u64), Credit>::empty(),
    {
        let r = AttributionLedger { rows: Vec::new() };
        assert(r@ =~= Map::<(u64, u64), Credit>::empty());
        r
    }

    /// The number of rows.
    pub fn len(&self) -> (n: usize)
        requires
            self.wf(),
        ensures
            self@.dom().finite(),
            n == self@.dom().len(),
    {
        proof {
            lemma_rows_len(self.rows@);
        }
        self.rows.len()
    }

    fn position(&self, user: u64, guild: u64) -> (r: Option<usize>)
        requires
            self.wf(),
        ensures
            match r {
                Some(i) => i < self.rows().len() && self.rows()[i as int].key() == (user, guild)
                    && self@.dom().contains((user, guild)) && self@[(user, guild)] == self.rows()[i as int].credit(),
                None => !has_key(self.rows(), (user, guild)) && !self@.dom().contains((user, guild)),
            },
    {
        let n = self.rows.len();
        let mut i: usize = 0;
        while i < n
            invariant
                self.wf(),
                n == self.rows@.len(),
                i <= n,
                forall|k: int| 0 <= k < i ==> (#[trigger] self.rows@[k]).key() != (user, guild),
            decreases n - i,
        {
            if self.rows[i].user == user && self.rows[i].guild == guild {
                proof {
                    lemma_row_in_map(self.rows@, i as int);
                }
                return Some(i);
            }
            i += 1;
        }
        None
    }

    /// The row for this member and guild, if there is one.
    pub fn get(&self, user: u64, guild: u64) -> (r: Option<AttributionRecord>)
        requires
            self.wf(),
        ensures
            r is Some <==> self@.dom().contains((user, guild)),
            r matches Some(record) ==> record.key() == (user, guild) && record.credit() == self@[(user, guild)],
    {
        match self.position(user, guild) {
            Some(i) => Some(
                AttributionRecord {
                    user,
                    guild,
                    inviter: self.rows[i].inviter,
                    invite: self.rows[i].invite.clone(),
                    used_at: self.rows[i].used_at,
                },
            ),
            None => None,
        }
    }

    /// Writes `record`: the row for its member and guild is created, or
    /// replaced if there is one. Rows of other members and guilds stay as
    /// they are.
    pub fn upsert(&mut self, record: AttributionRecord)
        requires
            old(self).wf(),
        ensures
            final(self).wf(),
            final(self)@ == upserted(old(self)@, record),
    {
        match self.position(record.user, record.guild) {
            Some(i) => {
                proof {
                    lemma_rows_update(self.rows@, i as int, record);
                }
                self.rows.set(i, record);
            },
            None => {
                proof {
                    lemma_rows_push(self.rows@, record);
                }
                self.rows.push(record);
            },
        }
    }

    /// The codes of the invites through which joins are credited to
    /// `inviter`, each code once, in no particular order.
    pub fn list_used_invites(&self, inviter: u64) -> (codes: Vec<String>)
        requires
            self.wf(),
        ensures
            no_code_twice(codes@),
            forall|code: Seq<char>| lists_code(codes@, code) <==> credits(self@, inviter, code),
    {
        let n = self.rows.len();
        let mut codes: Vec<String> = Vec::new();
        let mut i: usize = 0;
        while i < n
            invariant
                n == self.rows@.len(),
                i <= n,
                no_code_twice(codes@),
                forall|code: Seq<char>|
                    lists_code(codes@, code) <==> row_credits(self.rows@.subrange(0, i as int), inviter, code),
            decreases n - i,
        {
            let ghost seen = self.rows@.subrange(0, i as int);
            let ghost next = self.rows@.subrange(0, i + 1);
            let ghost before = codes@;
            assert(next =~= seen.push(self.rows@[i as int]));
            let add = self.rows[i].inviter == inviter && !code_listed(&codes, &self.rows[i].invite);
            if add {
                codes.push(self.rows[i].invite.clone());
                assert forall|a: int, b: int| 0 <= a < b < codes@.len() implies (#[trigger] codes@[a])@ != (
                #[trigger] codes@[b])@ by {
                    if b == before.len() {
                        assert(before[a]@ != self.rows@[i as int].invite@);
                    } else {
                        assert(before[a]@ != before[b]@);
                    }
                }
            }
            assert forall|code: Seq<char>| lists_code(codes@, code) <==> row_credits(next, inviter, code) by {
                if lists_code(codes@, code) {
                    let a = choose|a: int| 0 <= a < codes@.len() && (#[trigger] codes@[a])@ == code;
                    if a < before.len() {
                        assert(before[a]@ == code);
                        assert(lists_code(before, code));
                        let k = choose|k: int|
                            0 <= k < seen.len() && (#[trigger] seen[k]).inviter == inviter && seen[k].invite@
                                == code;
                        assert(next[k].inviter == inviter && next[k].invite@ == code);
                    } else {
                        assert(next[i as int].inviter == inviter && next[i as int].invite@ == code);
                    }
                }
                if row_credits(next, inviter, code) {
                    let k = choose|k: int|
                        0 <= k < next.len() && (#[trigger] next[k]).inviter == inviter && next[k].invite@ == code;
                    if k < i {
                        assert(seen[k].inviter == inviter && seen[k].invite@ == code);
                        assert(row_credits(seen, inviter, code));
                        assert(lists_code(before, code));
                        let a = choose|a: int| 0 <= a < before.len() && (#[trigger] before[a])@ == code;
                        assert(codes@[a]@ == code);
                    } else if add {
                        assert(codes@[before.len() as int]@ == code);
                    } else {
                        assert(next[k] == self.rows@[i as int]);
                        assert(lists_code(before, code));
                        let a = choose|a: int| 0 <= a < before.len() && (#[trigger] before[a])@ == code;
                        assert(codes@[a]@ == code);
                    }
                }
            }
            i += 1;
        }
        assert(self.rows@.subrange(0, n as int) =~= self.rows@);
        assert forall|code: Seq<char>| lists_code(codes@, code) <==> credits(self@, inviter, code) by {
            lemma_row_credits(self.rows@, inviter, code);
        }
        codes
    }
}

} // verus!
