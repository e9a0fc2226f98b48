use vstd::prelude::*;

verus! {

/// Accumulated length of one user in one chat.
#[derive(Clone, Copy, Debug, PartialEq, Eq, Structural)]
pub struct GrowthRecord {
    pub user: u64,
    pub chat: i64,
    pub length: i64,
}

/// Why a growth was refused.
#[derive(Clone, Copy, Debug, PartialEq, Eq, Structural)]
pub enum GrowthError {
    /// The increment was below zero.
    NegativeDelta,
    /// The accumulated length would not fit in an `i64`.
    LengthOverflow,
}

/// Summary of all records of one user.
#[derive(Clone, Copy, Debug, PartialEq, Eq, Structural)]
pub struct PersonalStats {
    pub chats: u64,
    pub max_length: i64,
    pub total_length: i128,
}

/// What the record `r` adds to the sums of `user`.
pub open spec fn share(r: GrowthRecord, user: u64) -> int {
    if r.user == user {
        r.length as int
    } else {
        0
    }
}

/// Number of records of `user`.
pub open spec fn chats_of(s: Seq<GrowthRecord>, user: u64) -> nat
    decreases s.len(),
{
    if s.len() == 0 {
        0
    } else {
        chats_of(s.drop_last(), user) + if s.last().user == user {
            1nat
        } else {
            0nat
        }
    }
}

/// Sum of the lengths of `user`.
pub open spec fn total_of(s: Seq<GrowthRecord>, user: u64) -> int
    decreases s.len(),
{
    if s.len() == 0 {
        0
    } else {
        total_of(s.drop_last(), user) + share(s.last(), user)
    }
}

/// Largest length of `user`, or zero without records.
pub open spec fn max_of(s: Seq<GrowthRecord>, user: u64) -> int
    decreases s.len(),
{
    if s.len() == 0 {
        0
    } else {
        let m = max_of(s.drop_last(), user);
        let x = share(s.last(), user);
        if x > m {
            x
        } else {
            m
        }
    }
}

/// Index of the record of (`user`, `chat`), or -1 where there is none.
pub open spec fn position(s: Seq<GrowthRecord>, user: u64, chat: i64) -> int
    decreases s.len(),
{
    if s.len() == 0 {
        -1
    } else if s.last().user == user && s.last().chat == chat {
        s.len() - 1
    } else {
        position(s.drop_last(), user, chat)
    }
}

/// Accumulated length of (`user`, `chat`), zero where no record exists.
pub open spec fn length_of(s: Seq<GrowthRecord>, user: u64, chat: i64) -> int {
    let p = position(s, user, chat);
    if p < 0 {
        0
    } else {
        s[p].length as int
    }
}

/// The records after `delta` is added to (`user`, `chat`): a missing record
/// is created with `delta`, an existing one is incremented in place.
pub open spec fn grown(s: Seq<GrowthRecord>, user: u64, chat: i64, delta: int) -> Seq<GrowthRecord> {
    let p = position(s, user, chat);
    let r = GrowthRecord { user, chat, length: (length_of(s, user, chat) + delta) as i64 };
    if p < 0 {
        s.push(r)
    } else {
        s.update(p, r)
    }
}

/// Lengths are never negative and no pair (user, chat) has two records.
pub open spec fn valid_records(s: Seq<GrowthRecord>) -> bool {
    &&& forall|i: int| 0 <= i < s.len() ==> #[trigger] s[i].length >= 0
    &&& forall|i: int, j: int|
        0 <= i < j < s.len() ==> (#[trigger] s[i].user != #[trigger] s[j].user || s[i].chat
            != s[j].chat)
}

/// `position` is -1 where the pair has no record, else the index of one.
pub proof fn lemma_position(s: Seq<GrowthRecord>, user: u64, chat: i64)
    ensures
        -1 <= position(s, user, chat) < s.len(),
        position(s, user, chat) >= 0 ==> s[position(s, user, chat)].user == user
            && s[position(s, user, chat)].chat == chat,
        position(s, user, chat) < 0 ==> forall|i: int|
            0 <= i < s.len() ==> !(#[trigger] s[i].user == user && s[i].chat == chat),
    decreases s.len(),
{
    if s.len() > 0 {
        lemma_position(s.drop_last(), user, chat);
        if position(s, user, chat) < 0 {
            assert forall|i: int| 0 <= i < s.len() implies !(#[trigger] s[i].user == user
                && s[i].chat == chat) by {
                if i < s.len() - 1 {
                    assert(s.drop_last()[i] == s[i]);
                }
            }
        }
    }
}

proof fn lemma_position_update(s: Seq<GrowthRecord>, user: u64, chat: i64, r: GrowthRecord)
    requires
        position(s, user, chat) >= 0,
        r.user == user,
        r.chat == chat,
    ensures
        position(s.update(position(s, user, chat), r), user, chat) == position(s, user, chat),
    decreases s.len(),
{
    lemma_position(s, user, chat);
    let p = position(s, user, chat);
    let t = s.update(p, r);
    if p < s.len() - 1 {
        assert(t.last() == s.last());
        assert(t.drop_last() =~= s.drop_last().update(p, r));
        lemma_position_update(s.drop_last(), user, chat, r);
    }
}

proof fn lemma_push(s: Seq<GrowthRecord>, r: GrowthRecord, user: u64)
    ensures
        chats_of(s.push(r), user) == chats_of(s, user) + if r.user == user {
            1nat
        } else {
            0nat
        },
        total_of(s.push(r), user) == total_of(s, user) + share(r, user),
        max_of(s.push(r), user) == if share(r, user) > max_of(s, user) {
            share(r, user)
        } else {
            max_of(s, user)
        },
{
    assert(s.push(r).drop_last() =~= s);
}

proof fn lemma_update(s: Seq<GrowthRecord>, i: int, r: GrowthRecord, user: u64)
    requires
        0 <= i < s.len(),
        r.user == s[i].user,
        share(r, user) >= share(s[i], user),
    ensures
        chats_of(s.update(i, r), user) == chats_of(s, user),
        total_of(s.update(i, r), user) == total_of(s, user) - share(s[i], user) + share(r, user),
        max_of(s.update(i, r), user) == if share(r, user) > max_of(s, user) {
            share(r, user)
        } else {
            max_of(s, user)
        },
    decreases s.len(),
{
    let t = s.update(i, r);
    if i == s.len() - 1 {
        assert(t.drop_last() =~= s.drop_last());
        lemma_max_bound(s.drop_last(), user);
    } else {
        assert(t.drop_last() =~= s.drop_last().update(i, r));
        lemma_update(s.drop_last(), i, r, user);
        lemma_max_bound(s.drop_last(), user);
        lemma_share_below_max(s.drop_last(), i, user);
    }
}

proof fn lemma_max_bound(s: Seq<GrowthRecord>, user: u64)
    ensures
        max_of(s, user) >= 0,
    decreases s.len(),
{
    if s.len() > 0 {
        lemma_max_bound(s.drop_last(), user);
    }
}

proof fn lemma_share_below_max(s: Seq<GrowthRecord>, i: int, user: u64)
    requires
        0 <= i < s.len(),
    ensures
        share(s[i], user) <= max_of(s, user),
    decreases s.len(),
{
    if i < s.len() - 1 {
        lemma_share_below_max(s.drop_last(), i, user);
        assert(s.drop_last()[i] == s[i]);
    }
}

/// A user without records has zero chats, zero maximum and zero total.
pub proof fn lemma_stats_of_user_without_records(s: Seq<GrowthRecord>, user: u64)
    requires
        forall|i: int| 0 <= i < s.len() ==> #[trigger] s[i].user != user,
    ensures
        chats_of(s, user) == 0,
        max_of(s, user) == 0,
        total_of(s, user) == 0,
    decreases s.len(),
{
    if s.len() > 0 {
        assert forall|i: int| 0 <= i < s.drop_last().len() implies #[trigger] s.drop_last()[i].user
            != user by {
            assert(s.drop_last()[i] == s[i]);
        }
        lemma_stats_of_user_without_records(s.drop_last(), user);
        assert(s.last().user != user);
    }
}

/// Two growths of one pair (user, chat) add up, in either order: the
/// resulting records are the same and the length has grown by both
/// increments, so no update is lost.
pub proof fn lemma_growths_of_one_pair_add_up(
    s: Seq<GrowthRecord>,
    user: u64,
    chat: i64,
    first: int,
    second: int,
)
    requires
        valid_records(s),
        0 <= first,
        0 <= second,
        length_of(s, user, chat) + first + second <= i64::MAX,
    ensures
        grown(grown(s, user, chat, first), user, chat, second) == grown(
            grown(s, user, chat, second),
            user,
            chat,
            first,
        ),
        length_of(grown(grown(s, user, chat, first), user, chat, second), user, chat)
            == length_of(s, user, chat) + first + second,
{
    lemma_position(s, user, chat);
    lemma_growth_position(s, user, chat, first);
    lemma_growth_position(s, user, chat, second);
    lemma_growth_position(grown(s, user, chat, first), user, chat, second);
    let p = position(s, user, chat);
    let total = GrowthRecord {
        user,
        chat,
        length: (length_of(s, user, chat) + first + second) as i64,
    };
    if p < 0 {
        assert(grown(grown(s, user, chat, first), user, chat, second) =~= s.push(total));
        assert(grown(grown(s, user, chat, second), user, chat, first) =~= s.push(total));
    } else {
        assert(grown(grown(s, user, chat, first), user, chat, second) =~= s.update(p, total));
        assert(grown(grown(s, user, chat, second), user, chat, first) =~= s.update(p, total));
    }
}

proof fn lemma_growth_position(s: Seq<GrowthRecord>, user: u64, chat: i64, delta: int)
    ensures
        position(grown(s, user, chat, delta), user, chat) == if position(s, user, chat) < 0 {
            s.len() as int
        } else {
            position(s, user, chat)
        },
        length_of(grown(s, user, chat, delta), user, chat) == ((length_of(s, user, chat)
            + delta) as i64) as int,
{
    lemma_position(s, user, chat);
    let r = GrowthRecord { user, chat, length: (length_of(s, user, chat) + delta) as i64 };
    if position(s, user, chat) >= 0 {
        lemma_position_update(s, user, chat, r);
    } else {
        assert(s.push(r).last() == r);
    }
}

/// Statistics read after a growth of (`user`, `chat`) by `delta` show it:
/// the total grows by `delta`, a new pair adds one chat, and the maximum
/// takes in the new length; other users' statistics do not change.
pub proof fn lemma_stats_follow_growth(
    s: Seq<GrowthRecord>,
    user: u64,
    chat: i64,
    delta: int,
    other: u64,
)
    requires
        valid_records(s),
        0 <= delta,
        length_of(s, user, chat) + delta <= i64::MAX,
        other != user,
    ensures
        total_of(grown(s, user, chat, delta), user) == total_of(s, user) + delta,
        chats_of(grown(s, user, chat, delta), user) == chats_of(s, user) + if position(
            s,
            user,
            chat,
        ) < 0 {
            1nat
        } else {
            0nat
        },
        max_of(grown(s, user, chat, delta), user) == if length_of(s, user, chat) + delta > max_of(
            s,
            user,
        ) {
            length_of(s, user, chat) + delta
        } else {
            max_of(s, user)
        },
        chats_of(grown(s, user, chat, delta), other) == chats_of(s, other),
        max_of(grown(s, user, chat, delta), other) == max_of(s, other),
        total_of(grown(s, user, chat, delta), other) == total_of(s, other),
{
    lemma_position(s, user, chat);
    let p = position(s, user, chat);
    let r = GrowthRecord { user, chat, length: (length_of(s, user, chat) + delta) as i64 };
    if p < 0 {
        lemma_push(s, r, user);
        lemma_push(s, r, other);
        lemma_max_bound(s, other);
    } else {
        lemma_update(s, p, r, user);
        lemma_update(s, p, r, other);
        lemma_max_bound(s, other);
    }
}

/// Store of growth records, at most one per pair (user, chat).
pub struct GrowthLedger {
    records: Vec<GrowthRecord>,
}

impl View for GrowthLedger {
    type V = Seq<GrowthRecord>;

    closed spec fn view(&self) -> Seq<GrowthRecord> {
        self.records@
    }
}

impl GrowthLedger {
    pub open spec fn wf(&self) -> bool {
        valid_records(self@)
    }

    /// A ledger without records.
    pub fn new() -> (r: Self)
        ensures
            r.wf(),
            r@ == Seq::<GrowthRecord>::empty(),
    {
        GrowthLedger { records: Vec::new() }
    }

    /// Index of the record of (`user`, `chat`), if there is one.
    fn find(&self, user: u64, chat: i64) -> (r: Option<usize>)
        ensures
            r matches Some(i) ==> i as int == position(self@, user, chat),
            r is None ==> position(self@, user, chat) == -1,
    {
        let mut i: usize = self.records.len();
        assert(self.records@.subrange(0, i as int) =~= self.records@);
        while i > 0
            invariant
                0 <= i <= self.records@.len(),
                position(self.records@, user, chat) == position(
                    self.records@.subrange(0, i as int),
                    user,
                    chat,
                ),
            decreases i,
        {
            let ghost prefix = self.records@.subrange(0, i as int);
            let r = self.records[i - 1];
            if r.user == user && r.chat == chat {
                return Some(i - 1);
            }
            assert(prefix.drop_last() =~= self.records@.subrange(0, i - 1));
            i = i - 1;
        }
        None
    }

    /// Accumulated length of `user` in `chat`; zero where nothing was recorded.
    pub fn length(&self, user: u64, chat: i64) -> (r: i64)
        requires
            self.wf(),
        ensures
            r as int == length_of(self@, user, chat),
    {
        proof {
            lemma_position(self@, user, chat);
        }
        match self.find(user, chat) {
            Some(i) => self.records[i].length,
            None => 0,
        }
    }

    /// Adds `delta` to the length of `user` in `chat`, creating the record
    /// where there is none, and returns the new length.
    pub fn create_or_grow(&mut self, user: u64, chat: i64, delta: i64) -> (r: Result<i64, GrowthError>)
        requires
            old(self).wf(),
        ensures
            final(self).wf(),
            delta < 0 ==> r == Err::<i64, GrowthError>(GrowthError::NegativeDelta) && final(self)@
                == old(self)@,
            delta >= 0 && length_of(old(self)@, user, chat) + delta > i64::MAX ==> r == Err::<
                i64,
                GrowthError,
            >(GrowthError::LengthOverflow) && final(self)@ == old(self)@,
            delta >= 0 && length_of(old(self)@, user, chat) + delta <= i64::MAX ==> r == Ok::<
                i64,
                GrowthError,
            >((length_of(old(self)@, user, chat) + delta) as i64) && final(self)@ == grown(
                old(self)@,
                user,
                chat,
                delta as int,
            ),
    {
        if delta < 0 {
            return Err(GrowthError::NegativeDelta);
        }
        proof {
            lemma_position(self@, user, chat);
        }
        let ghost before = self@;
        match self.find(user, chat) {
            Some(i) => {
                let current = self.records[i].length;
                if current > i64::MAX - delta {
                    return Err(GrowthError::LengthOverflow);
                }
                let updated = GrowthRecord { user, chat, length: current + delta };
                self.records.set(i, updated);
                assert forall|a: int, b: int|
                    0 <= a < b < self@.len() implies (#[trigger] self@[a].user
                    != #[trigger] self@[b].user || self@[a].chat != self@[b].chat) by {
                    assert(before[a].user != before[b].user || before[a].chat != before[b].chat);
                }
                assert(self@ =~= grown(before, user, chat, delta as int));
                Ok(current + delta)
            },
            None => {
                let created = GrowthRecord { user, chat, length: delta };
                self.records.push(created);
                assert forall|a: int, b: int|
                    0 <= a < b < self@.len() implies (#[trigger] self@[a].user
                    != #[trigger] self@[b].user || self@[a].chat != self@[b].chat) by {
                    if b < before.len() {
                        assert(before[a].user != before[b].user || before[a].chat
                            != before[b].chat);
                    } else {
                        assert(!(before[a].user == user && before[a].chat == chat));
                    }
                }
                assert(self@ =~= grown(before, user, chat, delta as int));
                Ok(delta)
            },
        }
    }

    /// Number of records, largest length and sum of lengths of `user`.
    pub fn get(&self, user: u64) -> (r: PersonalStats)
        requires
            self.wf(),
        ensures
            r.chats as int == chats_of(self@, user),
            r.max_length as int == max_of(self@, user),
            r.total_length as int == total_of(self@, user),
    {
        let mut chats: u64 = 0;
        let mut max_length: i64 = 0;
        let mut total_length: i128 = 0;
        let mut i: usize = 0;
        while i < self.records.len()
            invariant
                self.wf(),
                0 <= i <= self.records@.len(),
                chats as int == chats_of(self@.subrange(0, i as int), user),
                max_length as int == max_of(self@.subrange(0, i as int), user),
                total_length as int == total_of(self@.subrange(0, i as int), user),
                chats <= i,
                0 <= total_length <= i * 9223372036854775807,
            decreases self.records@.len() - i,
        {
            let r = self.records[i];
            assert(self@.subrange(0, i + 1).drop_last() =~= self@.subrange(0, i as int));
            assert(self@.subrange(0, i + 1).last() == r);
            if r.user == user {
                chats = chats + 1;
                if r.length > max_length {
                    max_length = r.length;
                }
                total_length = total_length + r.length as i128;
            }
            i = i + 1;
        }
        assert(self@.subrange(0, i as int) =~= self@);
        PersonalStats { chats, max_length, total_length }
    }
}

} // verus!
