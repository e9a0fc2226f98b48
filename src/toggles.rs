use vstd::prelude::*;

verus! {

/// The text of the environment variable name that disables a toggle,
/// before the upper-cased key.
pub const DISABLE_SIGNAL_PREFIX: &'static str = "DISABLE_CMD_";

/// What `str::to_uppercase` makes of a string.
pub uninterp spec fn upper_of(s: Seq<char>) -> Seq<char>;

/// Relies on `str::to_uppercase`: the result depends on the characters alone.
#[verifier::external_body]
fn to_upper(s: &str) -> (r: String)
    ensures
        r@ == upper_of(s@),
{
    s.to_uppercase()
}

/// Name of the environment variable whose presence disables the toggle `key`.
pub open spec fn disable_signal_name(key: Seq<char>) -> Seq<char> {
    DISABLE_SIGNAL_PREFIX@ + upper_of(key)
}

/// Value that a lookup of `key` yields on the table `m`, when the disable
/// signal, if it has to be consulted, is `signal_present`.
pub open spec fn toggle_value(m: Map<Seq<char>, bool>, key: Seq<char>, signal_present: bool) -> bool {
    if m.contains_key(key) {
        m[key]
    } else {
        !signal_present
    }
}

/// Table after a lookup of `key` on `m`: a missing key is recorded once.
pub open spec fn toggle_table(
    m: Map<Seq<char>, bool>,
    key: Seq<char>,
    signal_present: bool,
) -> Map<Seq<char>, bool> {
    if m.contains_key(key) {
        m
    } else {
        m.insert(key, !signal_present)
    }
}

/// Builds the environment variable name that disables the toggle `key`.
pub fn disable_signal_name_of(key: &str) -> (r: String)
    ensures
        r@ == disable_signal_name(key@),
{
    let upper = to_upper(key);
    let prefix = DISABLE_SIGNAL_PREFIX.to_owned();
    prefix.concat(upper.as_str())
}

/// Cache of command toggles: each key is resolved at most once and its value
/// never changes afterwards.
pub struct CachedEnvToggles {
    entries: Vec<(String, bool)>,
    table: Ghost<Map<Seq<char>, bool>>,
}

impl View for CachedEnvToggles {
    type V = Map<Seq<char>, bool>;

    closed spec fn view(&self) -> Map<Seq<char>, bool> {
        self.table@
    }
}

impl CachedEnvToggles {
    /// Every stored entry is in the table and every table key has an entry.
    pub closed spec fn wf(&self) -> bool {
        &&& forall|i: int|
            0 <= i < self.entries@.len() ==> {
                &&& #[trigger] self.table@.contains_key(self.entries@[i].0@)
                &&& self.table@[self.entries@[i].0@] == self.entries@[i].1
            }
        &&& forall|k: Seq<char>|
            #[trigger] self.table@.contains_key(k) ==> exists|i: int|
                0 <= i < self.entries@.len() && self.entries@[i].0@ == k
    }

    /// An empty cache.
    pub fn new() -> (r: Self)
        ensures
            r.wf(),
            r@ == Map::<Seq<char>, bool>::empty(),
    {
        CachedEnvToggles { entries: Vec::new(), table: Ghost(Map::empty()) }
    }

    /// The value already recorded for `key`, if any.
    pub fn cached(&self, key: &str) -> (r: Option<bool>)
        requires
            self.wf(),
        ensures
            r == (if self@.contains_key(key@) {
                Some(self@[key@])
            } else {
                None::<bool>
            }),
    {
        let wanted = key.to_owned();
        let mut i: usize = 0;
        while i < self.entries.len()
            invariant
                self.wf(),
                wanted@ == key@,
                0 <= i <= self.entries@.len(),
                forall|j: int| 0 <= j < i ==> self.entries@[j].0@ != key@,
            decreases self.entries@.len() - i,
        {
            if self.entries[i].0 == wanted {
                return Some(self.entries[i].1);
            }
            i = i + 1;
        }
        None
    }

    /// Whether the toggle `key` is enabled. A recorded key answers from the
    /// cache without consulting `signal_present`; otherwise `signal_present`
    /// is asked once whether the disable signal for the key exists, the
    /// toggle is enabled exactly when it does not, and that value is recorded.
    pub fn enabled<F: Fn(String) -> bool>(&mut self, key: &str, signal_present: F) -> (r: bool)
        requires
            old(self).wf(),
            forall|name: String| signal_present.requires((name,)),
        ensures
            final(self).wf(),
            exists|present: bool|
                {
                    &&& (!old(self)@.contains_key(key@) ==> exists|name: String|
                        name@ == disable_signal_name(key@) && signal_present.ensures(
                            (name,),
                            present,
                        ))
                    &&& r == toggle_value(old(self)@, key@, present)
                    &&& final(self)@ == toggle_table(old(self)@, key@, present)
                },
    {
        match self.cached(key) {
            Some(v) => {
                assert(v == toggle_value(self@, key@, false));
                assert(self@ == toggle_table(self@, key@, false));
                v
            },
            None => {
                let ghost old_table = self@;
                let name = disable_signal_name_of(key);
                let ghost g_name = name;
                let present = signal_present(name);
                let value = !present;
                let ghost before = self.entries@;
                self.entries.push((key.to_owned(), value));
                self.table = Ghost(self.table@.insert(key@, value));
                assert forall|k: Seq<char>| #[trigger] self.table@.contains_key(k) implies exists|i: int|
                    0 <= i < self.entries@.len() && self.entries@[i].0@ == k by {
                    if k != key@ {
                        let i = choose|i: int| 0 <= i < before.len() && before[i].0@ == k;
                        assert(self.entries@[i] == before[i]);
                    } else {
                        assert(self.entries@[before.len() as int].0@ == k);
                    }
                }
                assert(signal_present.ensures((g_name,), present));
                assert(self@ == toggle_table(old_table, key@, present));
                value
            },
        }
    }
}

impl Default for CachedEnvToggles {
    fn default() -> (r: Self)
        ensures
            r.wf(),
            r@ == Map::<Seq<char>, bool>::empty(),
    {
        Self::new()
    }
}

/// With no disable signal at the first lookup, a toggle is enabled, and it
/// stays enabled on every later lookup, whatever the signal says by then.
pub proof fn lemma_unsignalled_toggle_stays_enabled(
    m: Map<Seq<char>, bool>,
    key: Seq<char>,
    later_signal: bool,
)
    requires
        !m.contains_key(key),
    ensures
        toggle_value(m, key, false),
        toggle_value(toggle_table(m, key, false), key, later_signal),
        toggle_table(toggle_table(m, key, false), key, later_signal) == toggle_table(m, key, false),
{
}

/// With the disable signal present at the first lookup, a toggle is
/// disabled, and it stays disabled on every later lookup, even once the
/// signal is gone.
pub proof fn lemma_signalled_toggle_stays_disabled(
    m: Map<Seq<char>, bool>,
    key: Seq<char>,
    later_signal: bool,
)
    requires
        !m.contains_key(key),
    ensures
        !toggle_value(m, key, true),
        !toggle_value(toggle_table(m, key, true), key, later_signal),
        toggle_table(toggle_table(m, key, true), key, later_signal) == toggle_table(m, key, true),
{
}

} // verus!
