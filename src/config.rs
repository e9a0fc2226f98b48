use std::sync::Arc;
use vstd::prelude::*;

verus! {

/// Switches of the player-versus-player battles.
#[derive(Clone, Copy, Debug, PartialEq, Eq, Structural)]
pub struct BattlesFeatureToggles {
    pub check_acceptor_length: bool,
    pub callback_locks: bool,
    pub show_stats: bool,
    pub show_stats_notice: bool,
}

impl Default for BattlesFeatureToggles {
    fn default() -> (r: Self)
        ensures
            !r.check_acceptor_length,
            !r.callback_locks,
            !r.show_stats,
            !r.show_stats_notice,
    {
        BattlesFeatureToggles {
            check_acceptor_length: false,
            callback_locks: false,
            show_stats: false,
            show_stats_notice: false,
        }
    }
}

/// How the user of the day is picked.
#[derive(Clone, Copy, Debug, PartialEq, Eq, Structural)]
pub enum DickOfDaySelectionMode {
    WEIGHTS,
    EXCLUSION,
    RANDOM,
}

/// The text that names a selection mode.
pub open spec fn mode_name(m: DickOfDaySelectionMode) -> Seq<char> {
    match m {
        DickOfDaySelectionMode::WEIGHTS => "WEIGHTS"@,
        DickOfDaySelectionMode::EXCLUSION => "EXCLUSION"@,
        DickOfDaySelectionMode::RANDOM => "RANDOM"@,
    }
}

impl Default for DickOfDaySelectionMode {
    fn default() -> (r: Self)
        ensures
            r == DickOfDaySelectionMode::RANDOM,
    {
        DickOfDaySelectionMode::RANDOM
    }
}

impl DickOfDaySelectionMode {
    /// The name of the mode, as it is written in the configuration.
    pub fn name(&self) -> (r: &'static str)
        ensures
            r@ == mode_name(*self),
    {
        match self {
            DickOfDaySelectionMode::WEIGHTS => "WEIGHTS",
            DickOfDaySelectionMode::EXCLUSION => "EXCLUSION",
            DickOfDaySelectionMode::RANDOM => "RANDOM",
        }
    }

    /// The mode whose name is exactly `s`, if any.
    pub fn parse(s: &str) -> (r: Option<Self>)
        ensures
            r matches Some(m) ==> mode_name(m) == s@,
            r is None ==> forall|m: DickOfDaySelectionMode| mode_name(m) != s@,
    {
        proof {
            reveal_strlit("WEIGHTS");
            reveal_strlit("EXCLUSION");
            reveal_strlit("RANDOM");
        }
        let given = s.to_owned();
        if given == "WEIGHTS".to_owned() {
            Some(DickOfDaySelectionMode::WEIGHTS)
        } else if given == "EXCLUSION".to_owned() {
            Some(DickOfDaySelectionMode::EXCLUSION)
        } else if given == "RANDOM".to_owned() {
            Some(DickOfDaySelectionMode::RANDOM)
        } else {
            None
        }
    }
}

/// Switches of optional features.
#[derive(Clone, Copy, Debug, PartialEq, Eq, Structural)]
pub struct FeatureToggles {
    pub chats_merging: bool,
    pub top_unlimited: bool,
    pub dod_selection_mode: DickOfDaySelectionMode,
    pub pvp: BattlesFeatureToggles,
}

impl Default for FeatureToggles {
    fn default() -> (r: Self)
        ensures
            r.chats_merging,
            r.top_unlimited,
            r.dod_selection_mode == DickOfDaySelectionMode::RANDOM,
            !r.pvp.check_acceptor_length,
            !r.pvp.callback_locks,
            !r.pvp.show_stats,
            !r.pvp.show_stats_notice,
    {
        FeatureToggles {
            chats_merging: true,
            top_unlimited: true,
            dod_selection_mode: DickOfDaySelectionMode::default(),
            pvp: BattlesFeatureToggles::default(),
        }
    }
}

/// Languages that announcements are written in.
#[derive(Clone, Copy, Debug, PartialEq, Eq, Structural)]
pub enum SupportedLanguage {
    EN,
    RU,
}

/// SHA-256 digest of the UTF-8 encoding of a text.
pub uninterp spec fn sha256_of(text: Seq<char>) -> Seq<u8>;

/// Relies on sha2's `Sha256` digest of the text's UTF-8 bytes, which is
/// 32 bytes long.
#[verifier::external_body]
fn sha256(text: &str) -> (r: Vec<u8>)
    ensures
        r@ == sha256_of(text@),
        r@.len() == 32,
{
    <sha2::Sha256 as sha2::Digest>::digest(text.as_bytes()).to_vec()
}

/// An announcement text with the digest that identifies it.
#[derive(Clone)]
pub struct Announcement {
    pub text: Arc<String>,
    pub hash: Arc<Vec<u8>>,
}

/// `a` announces `text`, identified by the digest of `text`.
pub open spec fn announces(a: Announcement, text: Seq<char>) -> bool {
    &&& (*a.text)@ == text
    &&& (*a.hash)@ == sha256_of(text)
}

impl Announcement {
    /// An announcement of `text`, or none where `text` is empty.
    pub fn new(text: String) -> (r: Option<Self>)
        ensures
            r is None <==> text@.len() == 0,
            r matches Some(a) ==> announces(a, text@),
    {
        if text.as_str().unicode_len() == 0 {
            None
        } else {
            let hash = sha256(text.as_str());
            Some(Announcement { text: Arc::new(text), hash: Arc::new(hash) })
        }
    }
}

/// Announcements by language, with how often each may be shown.
#[derive(Clone)]
pub struct AnnouncementsConfig {
    pub max_shows: usize,
    pub announcements: Vec<(SupportedLanguage, Announcement)>,
}

impl AnnouncementsConfig {
    /// A configuration with the announcements in English and in Russian whose
    /// texts are not empty, in that order.
    pub fn from_texts(max_shows: usize, en: String, ru: String) -> (r: Self)
        ensures
            r.max_shows == max_shows,
            r.announcements@.len() == (if en@.len() > 0 {
                1int
            } else {
                0int
            }) + (if ru@.len() > 0 {
                1int
            } else {
                0int
            }),
            en@.len() > 0 ==> r.announcements@[0].0 == SupportedLanguage::EN && announces(
                r.announcements@[0].1,
                en@,
            ),
            ru@.len() > 0 ==> r.announcements@.last().0 == SupportedLanguage::RU && announces(
                r.announcements@.last().1,
                ru@,
            ),
    {
        let mut announcements: Vec<(SupportedLanguage, Announcement)> = Vec::new();
        match Announcement::new(en) {
            Some(a) => announcements.push((SupportedLanguage::EN, a)),
            None => {},
        }
        match Announcement::new(ru) {
            Some(a) => announcements.push((SupportedLanguage::RU, a)),
            None => {},
        }
        AnnouncementsConfig { max_shows, announcements }
    }

    /// The first announcement in `lang`, if there is one.
    pub fn get(&self, lang: SupportedLanguage) -> (r: Option<&Announcement>)
        ensures
            r is None <==> forall|i: int|
                0 <= i < self.announcements@.len() ==> #[trigger] self.announcements@[i].0 != lang,
            r matches Some(a) ==> exists|i: int|
                0 <= i < self.announcements@.len() && self.announcements@[i].0 == lang
                    && *a == self.announcements@[i].1 && forall|j: int|
                    0 <= j < i ==> #[trigger] self.announcements@[j].0 != lang,
    {
        let mut i: usize = 0;
        while i < self.announcements.len()
            invariant
                0 <= i <= self.announcements@.len(),
                forall|j: int| 0 <= j < i ==> #[trigger] self.announcements@[j].0 != lang,
            decreases self.announcements@.len() - i,
        {
            if self.announcements[i].0 == lang {
                return Some(&self.announcements[i].1);
            }
            i = i + 1;
        }
        None
    }
}

/// `s` with a leading `@`, unless it already starts with one.
pub open spec fn with_at_sign(s: Seq<char>) -> Seq<char> {
    if s.len() > 0 && s[0] == '@' {
        s
    } else {
        seq!['@'] + s
    }
}

/// The handles of `names`, each with a leading `@`, separated by ", ".
pub open spec fn handles_line(names: Seq<Seq<char>>) -> Seq<char>
    decreases names.len(),
{
    if names.len() == 0 {
        Seq::empty()
    } else if names.len() == 1 {
        with_at_sign(names[0])
    } else {
        handles_line(names.drop_last()) + seq![',', ' '] + with_at_sign(names.last())
    }
}

/// Turns a user name into a handle by putting `@` in front where missing.
pub fn ensure_starts_with_at_sign(s: String) -> (r: String)
    ensures
        r@ == with_at_sign(s@),
{
    proof {
        reveal_strlit("@");
    }
    if s.as_str().unicode_len() > 0 && s.as_str().get_char(0) == '@' {
        s
    } else {
        let at = "@".to_owned();
        let r = at.concat(s.as_str());
        assert(r@ =~= seq!['@'] + s@);
        r
    }
}

/// The handles of the competitor bots, joined by ", ".
pub fn competitor_bots_line(bots: &[&str]) -> (r: String)
    ensures
        r@ == handles_line(bots@.map_values(|b: &str| b@)),
{
    let ghost names = bots@.map_values(|b: &str| b@);
    let mut line = String::new();
    let mut i: usize = 0;
    while i < bots.len()
        invariant
            0 <= i <= bots@.len(),
            names == bots@.map_values(|b: &str| b@),
            line@ == handles_line(names.subrange(0, i as int)),
        decreases bots@.len() - i,
    {
        let handle = ensure_starts_with_at_sign(bots[i].to_owned());
        let ghost prefix = names.subrange(0, i + 1);
        assert(prefix.drop_last() =~= names.subrange(0, i as int));
        assert(prefix.last() == bots@[i as int]@);
        if i > 0 {
            line.append(", ");
            proof {
                reveal_strlit(", ");
            }
            assert(", "@ =~= seq![',', ' ']);
        } else {
            assert(prefix[0] == bots@[i as int]@);
            assert(line@ =~= Seq::<char>::empty());
        }
        line.append(handle.as_str());
        assert(line@ =~= handles_line(names.subrange(0, i + 1)));
        i = i + 1;
    }
    assert(names.subrange(0, i as int) =~= names);
    line
}

} // verus!
