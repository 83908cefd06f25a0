//! Preferences: defaults, legal ranges, and how a load went.

use vstd::prelude::*;
use vstd::string::*;

use crate::audio::cue::CueConfig;
use crate::audio::level::clamp;
use crate::audio::mic::MicConfig;
use crate::audio::mixer::EQ_BAND_COUNT;
use crate::clock::{write_compact, Stamp};
use crate::stream::config::StreamConfig;
use crate::text::{blank, copy_opt, same_text};
use crate::audio::level;
use crate::clock;
use crate::text;

verus! {

/// Shortest time between folder syncs, in minutes.
pub const AUTO_SYNC_MIN_MINUTES: u32 = 5;

/// Longest time between folder syncs, in minutes.
pub const AUTO_SYNC_MAX_MINUTES: u32 = 1440;

/// Usual time between folder syncs, in minutes.
pub const AUTO_SYNC_DEFAULT_MINUTES: u32 = 60;

/// Usual loudness target, in millionths of a unit.
pub const TARGET_UDB: i64 = -9_000_000;

/// Lowest loudness target, in millionths of a unit.
pub const TARGET_MIN_UDB: i64 = -23_000_000;

/// Preferences. Levels are millionths of a unit or of a decibel, times are
/// microseconds.
#[derive(Clone)]
pub struct AppSettings {
    /// Output device, or nothing for the system's own.
    pub output_device: Option<String>,
    pub station_name: String,
    pub crossfade_us: i64,
    pub silence_threshold_us: i64,
    /// Keep the music going without a DJ.
    pub autodj: bool,
    pub eq_enabled: bool,
    /// Gains of the equalizer's bands.
    pub eq_gains_udb: Vec<i64>,
    /// Ceiling of the limiter.
    pub limiter_ceiling: i64,
    /// Even out the loudness of tracks.
    pub loudness_norm: bool,
    /// Loudness that tracks are brought to.
    pub loudness_target_udb: i64,
    pub stream: StreamConfig,
    pub mic: MicConfig,
    pub cue: CueConfig,
    /// Folders that are looked through for new audio.
    pub watch_folders: Vec<String>,
    pub auto_sync_enabled: bool,
    pub auto_sync_interval_mins: u32,
}

impl Default for AppSettings {
    fn default() -> (r: Self)
        ensures
            is_default(r),
    {
        let mut gains: Vec<i64> = Vec::new();
        let mut i: usize = 0;
        while i < EQ_BAND_COUNT
            invariant
                i <= EQ_BAND_COUNT,
                gains@.len() == i,
                forall|j: int| 0 <= j < i ==> gains@[j] == 0,
            decreases EQ_BAND_COUNT - i,
        {
            gains.push(0);
            i = i + 1;
        }
        AppSettings {
            output_device: None,
            station_name: String::from_str("CrabBoss FM"),
            crossfade_us: 3_000_000,
            silence_threshold_us: 10_000_000,
            autodj: true,
            eq_enabled: false,
            eq_gains_udb: gains,
            limiter_ceiling: 990_000,
            loudness_norm: true,
            loudness_target_udb: TARGET_UDB,
            stream: StreamConfig::default(),
            mic: MicConfig::default(),
            cue: CueConfig::default(),
            watch_folders: Vec::new(),
            auto_sync_enabled: false,
            auto_sync_interval_mins: AUTO_SYNC_DEFAULT_MINUTES,
        }
    }
}

/// The preferences of a first run.
pub open spec fn is_default(r: AppSettings) -> bool {
    &&& r.output_device is None
    &&& r.station_name@ == "CrabBoss FM"@
    &&& r.crossfade_us == 3_000_000
    &&& r.silence_threshold_us == 10_000_000
    &&& r.autodj
    &&& !r.eq_enabled
    &&& r.eq_gains_udb@.len() == EQ_BAND_COUNT
    &&& forall|j: int| 0 <= j < r.eq_gains_udb@.len() ==> r.eq_gains_udb@[j] == 0
    &&& r.limiter_ceiling == 990_000
    &&& r.loudness_norm
    &&& r.loudness_target_udb == TARGET_UDB
    &&& r.stream.is_default()
    &&& r.mic.is_default()
    &&& r.cue.is_default()
    &&& r.watch_folders@.len() == 0
    &&& !r.auto_sync_enabled
    &&& r.auto_sync_interval_mins == AUTO_SYNC_DEFAULT_MINUTES
}

/// The folders that are kept: none that is blank and none twice, in their
/// order.
pub open spec fn kept_folders(s: Seq<Seq<char>>) -> Seq<Seq<char>>
    decreases s.len(),
{
    if s.len() == 0 {
        s
    } else {
        let front = kept_folders(s.drop_last());
        if text::is_blank(s.last()) || front.contains(s.last()) {
            front
        } else {
            front.push(s.last())
        }
    }
}

/// A station name as it is used.
pub open spec fn clean_name(s: Seq<char>) -> Seq<char> {
    if text::is_blank(s) {
        "CrabBoss FM"@
    } else {
        s
    }
}

/// The second preferences are the first in the form that is used.
pub open spec fn cleaned(a: AppSettings, b: AppSettings, highest_target: i64) -> bool {
    &&& b.output_device == a.output_device
    &&& b.station_name@ == clean_name(a.station_name@)
    &&& b.crossfade_us == level::clamped(a.crossfade_us as int, 0, 30_000_000)
    &&& b.silence_threshold_us == level::clamped(
        a.silence_threshold_us as int,
        1_000_000,
        120_000_000,
    )
    &&& b.autodj == a.autodj
    &&& b.eq_enabled == a.eq_enabled
    &&& b.eq_gains_udb@ == a.eq_gains_udb@.map_values(
        |g: i64| level::clamped(g as int, -12_000_000, 12_000_000) as i64,
    )
    &&& b.limiter_ceiling == level::clamped(a.limiter_ceiling as int, 100_000, 1_000_000)
    &&& b.loudness_norm == a.loudness_norm
    &&& b.loudness_target_udb == level::clamped(
        a.loudness_target_udb as int,
        TARGET_MIN_UDB as int,
        highest_target as int,
    )
    &&& b.stream == a.stream
    &&& b.mic == a.mic.cleaned()
    &&& b.cue == a.cue.cleaned()
    &&& text::texts(b.watch_folders@) == kept_folders(text::texts(a.watch_folders@))
    &&& b.auto_sync_enabled == a.auto_sync_enabled
    &&& b.auto_sync_interval_mins == level::clamped(
        a.auto_sync_interval_mins as int,
        AUTO_SYNC_MIN_MINUTES as int,
        AUTO_SYNC_MAX_MINUTES as int,
    )
}

/// Whether a list of texts holds a text.
fn is_among(list: &Vec<String>, s: &str) -> (r: bool)
    ensures
        r == text::texts(list@).contains(s@),
{
    let ghost all = text::texts(list@);
    let mut i: usize = 0;
    while i < list.len()
        invariant
            i <= list@.len(),
            all == text::texts(list@),
            forall|j: int| 0 <= j < i ==> all[j] != s@,
        decreases list@.len() - i,
    {
        if same_text(list[i].as_str(), s) {
            assert(all[i as int] == s@);
            return true;
        }
        i = i + 1;
    }
    false
}

/// Drop blank folders and repetitions.
fn keep_folders(v: &Vec<String>) -> (r: Vec<String>)
    ensures
        text::texts(r@) == kept_folders(text::texts(v@)),
{
    let ghost all = text::texts(v@);
    let mut r: Vec<String> = Vec::new();
    let mut i: usize = 0;
    assert(all.subrange(0, 0) =~= Seq::empty());
    assert(text::texts(r@) =~= Seq::empty());
    while i < v.len()
        invariant
            i <= v@.len(),
            all == text::texts(v@),
            text::texts(r@) == kept_folders(all.subrange(0, i as int)),
        decreases v@.len() - i,
    {
        assert(all.subrange(0, i + 1).drop_last() =~= all.subrange(0, i as int));
        assert(all.subrange(0, i + 1).last() == v@[i as int]@);
        if !blank(v[i].as_str()) && !is_among(&r, v[i].as_str()) {
            let ghost before = text::texts(r@);
            r.push(v[i].clone());
            assert(text::texts(r@) =~= before.push(v@[i as int]@));
        }
        i = i + 1;
    }
    assert(all.subrange(0, i as int) =~= all);
    r
}

impl AppSettings {
    /// Move every value into its legal range. The highest loudness target is
    /// given by the player.
    pub fn sanitized(self, highest_target: i64) -> (r: Self)
        requires
            TARGET_MIN_UDB <= highest_target,
        ensures
            cleaned(self, r, highest_target),
    {
        let mut c = self;
        if blank(c.station_name.as_str()) {
            c.station_name = String::from_str("CrabBoss FM");
        }
        c.crossfade_us = clamp(c.crossfade_us, 0, 30_000_000);
        c.silence_threshold_us = clamp(c.silence_threshold_us, 1_000_000, 120_000_000);
        let mut gains: Vec<i64> = Vec::new();
        let mut i: usize = 0;
        while i < c.eq_gains_udb.len()
            invariant
                i <= c.eq_gains_udb@.len(),
                gains@.len() == i,
                forall|j: int|
                    0 <= j < i ==> gains@[j] == level::clamped(
                        c.eq_gains_udb@[j] as int,
                        -12_000_000,
                        12_000_000,
                    ),
            decreases c.eq_gains_udb@.len() - i,
        {
            gains.push(clamp(c.eq_gains_udb[i], -12_000_000, 12_000_000));
            i = i + 1;
        }
        assert(gains@ =~= self.eq_gains_udb@.map_values(
            |g: i64| level::clamped(g as int, -12_000_000, 12_000_000) as i64,
        ));
        c.eq_gains_udb = gains;
        c.limiter_ceiling = clamp(c.limiter_ceiling, 100_000, 1_000_000);
        c.loudness_target_udb = clamp(c.loudness_target_udb, TARGET_MIN_UDB, highest_target);
        if c.auto_sync_interval_mins < AUTO_SYNC_MIN_MINUTES {
            c.auto_sync_interval_mins = AUTO_SYNC_MIN_MINUTES;
        } else if c.auto_sync_interval_mins > AUTO_SYNC_MAX_MINUTES {
            c.auto_sync_interval_mins = AUTO_SYNC_MAX_MINUTES;
        }
        c.watch_folders = keep_folders(&c.watch_folders);
        c.mic = c.mic.sanitized();
        c.cue = c.cue.sanitized();
        c
    }
}

proof fn lemma_kept_distinct(s: Seq<Seq<char>>)
    ensures
        forall|i: int| 0 <= i < kept_folders(s).len() ==> !text::is_blank(#[trigger] kept_folders(s)[i]),
        forall|i: int, j: int|
            0 <= i < j < kept_folders(s).len() ==> #[trigger] kept_folders(s)[i]
                != #[trigger] kept_folders(s)[j],
        forall|x: Seq<char>|
            kept_folders(s).contains(x) <==> s.contains(x) && !text::is_blank(x),
    decreases s.len(),
{
    if s.len() > 0 {
        let t = s.drop_last();
        let front = kept_folders(t);
        lemma_kept_distinct(t);
        assert(s =~= t.push(s.last()));
        assert forall|x: Seq<char>|
            kept_folders(s).contains(x) <==> s.contains(x) && !text::is_blank(x) by {
            assert(s.contains(x) <==> t.contains(x) || x == s.last()) by {
                if t.contains(x) {
                    let k = choose|k: int| 0 <= k < t.len() && t[k] == x;
                    assert(s[k] == x);
                }
                if x == s.last() {
                    assert(s[s.len() - 1] == x);
                }
            }
            if text::is_blank(s.last()) || front.contains(s.last()) {
            } else {
                let k = front.push(s.last());
                assert(k.contains(x) <==> front.contains(x) || x == s.last()) by {
                    if front.contains(x) {
                        let m = choose|m: int| 0 <= m < front.len() && front[m] == x;
                        assert(k[m] == x);
                    }
                    if x == s.last() {
                        assert(k[k.len() - 1] == x);
                    }
                }
            }
        }
        if !(text::is_blank(s.last()) || front.contains(s.last())) {
            assert forall|i: int, j: int| 0 <= i < j < kept_folders(s).len() implies #[trigger] kept_folders(
                s,
            )[i] != #[trigger] kept_folders(s)[j] by {
                if j == front.len() {
                    assert(front.contains(front[i]));
                }
            }
        }
    }
}

proof fn lemma_kept_whole(s: Seq<Seq<char>>)
    requires
        forall|i: int| 0 <= i < s.len() ==> !text::is_blank(#[trigger] s[i]),
        forall|i: int, j: int| 0 <= i < j < s.len() ==> #[trigger] s[i] != #[trigger] s[j],
    ensures
        kept_folders(s) == s,
    decreases s.len(),
{
    if s.len() > 0 {
        let t = s.drop_last();
        lemma_kept_whole(t);
        assert(!t.contains(s.last()));
        assert(t.push(s.last()) =~= s);
    }
}

/// Keeping folders loses none that is not blank, repeats none, and settles.
pub proof fn folders_are_kept_once(s: Seq<Seq<char>>)
    ensures
        forall|x: Seq<char>|
            kept_folders(s).contains(x) <==> s.contains(x) && !text::is_blank(x),
        forall|i: int, j: int|
            0 <= i < j < kept_folders(s).len() ==> #[trigger] kept_folders(s)[i]
                != #[trigger] kept_folders(s)[j],
        kept_folders(kept_folders(s)) == kept_folders(s),
{
    lemma_kept_distinct(s);
    lemma_kept_whole(kept_folders(s));
}

/// Preferences that were moved into their ranges once are not changed again.
pub proof fn cleaning_settles(a: AppSettings, b: AppSettings, c: AppSettings, highest_target: i64)
    requires
        TARGET_MIN_UDB <= highest_target,
        cleaned(a, b, highest_target),
        cleaned(b, c, highest_target),
    ensures
        c.station_name@ == b.station_name@,
        c.crossfade_us == b.crossfade_us,
        c.silence_threshold_us == b.silence_threshold_us,
        c.eq_gains_udb@ == b.eq_gains_udb@,
        c.limiter_ceiling == b.limiter_ceiling,
        c.loudness_target_udb == b.loudness_target_udb,
        c.mic == b.mic,
        c.cue == b.cue,
        text::texts(c.watch_folders@) == text::texts(b.watch_folders@),
        c.auto_sync_interval_mins == b.auto_sync_interval_mins,
{
    folders_are_kept_once(text::texts(a.watch_folders@));
    assert(c.eq_gains_udb@ =~= b.eq_gains_udb@);
    reveal_strlit("CrabBoss FM");
    let n = "CrabBoss FM"@;
    assert(text::trim_start(n) == n && text::trim_end(n) == n);
}

/// What came of reading and parsing the file.
pub enum FileOutcome {
    /// There is no file.
    NotFound,
    /// It cannot be read, with the reason.
    Unreadable(String),
    /// It does not parse, with the reason.
    Malformed(String),
    Parsed(AppSettings),
}

/// How a load went. Every outcome carries preferences to run with.
pub enum SettingsLoad {
    /// First run.
    Missing(AppSettings),
    Loaded(AppSettings),
    /// The file does not parse; it is left as it is.
    Invalid { defaults: AppSettings, error: String },
    /// The file cannot be read.
    IoError { defaults: AppSettings, error: String },
}

impl AppSettings {
    /// Judge a load of the file at a path.
    pub fn load(path: &str, outcome: FileOutcome, highest_target: i64) -> (r: SettingsLoad)
        requires
            TARGET_MIN_UDB <= highest_target,
        ensures
            match outcome {
                FileOutcome::NotFound => r matches SettingsLoad::Missing(d) && is_default(d),
                FileOutcome::Unreadable(why) => r matches SettingsLoad::IoError { defaults, error }
                    && is_default(defaults) && error@ == "cannot read "@ + path@ + ": "@ + why@,
                FileOutcome::Malformed(why) => r matches SettingsLoad::Invalid { defaults, error }
                    && is_default(defaults) && error@ == "invalid JSON in "@ + path@ + ": "@ + why@,
                FileOutcome::Parsed(s) => r matches SettingsLoad::Loaded(t) && cleaned(
                    s,
                    t,
                    highest_target,
                ),
            },
    {
        match outcome {
            FileOutcome::NotFound => SettingsLoad::Missing(AppSettings::default()),
            FileOutcome::Unreadable(why) => {
                let mut s = String::from_str("cannot read ");
                s.append(path);
                s.append(": ");
                s.append(why.as_str());
                SettingsLoad::IoError { defaults: AppSettings::default(), error: s }
            },
            FileOutcome::Malformed(why) => {
                let mut s = String::from_str("invalid JSON in ");
                s.append(path);
                s.append(": ");
                s.append(why.as_str());
                SettingsLoad::Invalid { defaults: AppSettings::default(), error: s }
            },
            FileOutcome::Parsed(s) => SettingsLoad::Loaded(s.sanitized(highest_target)),
        }
    }
}

impl SettingsLoad {
    /// The preferences to run with, whatever happened.
    pub open spec fn usable(self) -> AppSettings {
        match self {
            SettingsLoad::Missing(s) => s,
            SettingsLoad::Loaded(s) => s,
            SettingsLoad::Invalid { defaults, error } => defaults,
            SettingsLoad::IoError { defaults, error } => defaults,
        }
    }

    /// The words of warning, where there are any.
    pub open spec fn trouble(self) -> Option<Seq<char>> {
        match self {
            SettingsLoad::Missing(_) => None,
            SettingsLoad::Loaded(_) => None,
            SettingsLoad::Invalid { defaults, error } => Some(error@),
            SettingsLoad::IoError { defaults, error } => Some(error@),
        }
    }

    /// The preferences to run with, whatever happened.
    pub fn settings(self) -> (r: AppSettings)
        ensures
            r == self.usable(),
    {
        match self {
            SettingsLoad::Missing(s) => s,
            SettingsLoad::Loaded(s) => s,
            SettingsLoad::Invalid { defaults, .. } => defaults,
            SettingsLoad::IoError { defaults, .. } => defaults,
        }
    }

    /// A warning for anything but a clean load or a first run.
    pub fn warning(&self) -> (r: Option<String>)
        ensures
            text::opt_text(r) == self.trouble(),
    {
        match self {
            SettingsLoad::Missing(_) => None,
            SettingsLoad::Loaded(_) => None,
            SettingsLoad::Invalid { error, .. } => Some(error.clone()),
            SettingsLoad::IoError { error, .. } => Some(error.clone()),
        }
    }

    /// Whether the file has to be moved aside before the next save.
    pub fn needs_quarantine(&self) -> (r: bool)
        ensures
            r == (self.trouble() is Some),
    {
        match self {
            SettingsLoad::Missing(_) => false,
            SettingsLoad::Loaded(_) => false,
            SettingsLoad::Invalid { .. } => true,
            SettingsLoad::IoError { .. } => true,
        }
    }
}

/// Where an untrusted file is moved at a moment of the wall clock; nowhere when
/// there is no file.
pub fn quarantine_target(path: &str, there: bool, now: Stamp) -> (r: Option<String>)
    requires
        now.valid(),
        now.nanos < 1_000_000_000,
    ensures
        text::opt_text(r) == (if there {
            Some(path@ + ".corrupt-"@ + clock::compact_text(now.secs as int))
        } else {
            None
        }),
{
    if !there {
        return None;
    }
    let stamp = write_compact(now);
    let mut s = String::from_str(path);
    s.append(".corrupt-");
    s.append(stamp.as_str());
    Some(s)
}

/// What cleaning does to preferences: a number within its range stays, one
/// outside moves to the nearer end; a blank station name gives way to the usual
/// one; the switches, the devices and the stream stay as they are.
pub proof fn preferences_move_into_their_ranges(
    a: AppSettings,
    b: AppSettings,
    highest_target: i64,
)
    requires
        -23_000_000 <= highest_target,
        cleaned(a, b, highest_target),
    ensures
        0 <= b.crossfade_us <= 30_000_000,
        0 <= a.crossfade_us <= 30_000_000 ==> b.crossfade_us == a.crossfade_us,
        a.crossfade_us < 0 ==> b.crossfade_us == 0,
        a.crossfade_us > 30_000_000 ==> b.crossfade_us == 30_000_000,
        1_000_000 <= b.silence_threshold_us <= 120_000_000,
        1_000_000 <= a.silence_threshold_us <= 120_000_000 ==> b.silence_threshold_us == a.silence_threshold_us,
        a.silence_threshold_us < 1_000_000 ==> b.silence_threshold_us == 1_000_000,
        a.silence_threshold_us > 120_000_000 ==> b.silence_threshold_us == 120_000_000,
        100_000 <= b.limiter_ceiling <= 1_000_000,
        100_000 <= a.limiter_ceiling <= 1_000_000 ==> b.limiter_ceiling == a.limiter_ceiling,
        a.limiter_ceiling < 100_000 ==> b.limiter_ceiling == 100_000,
        a.limiter_ceiling > 1_000_000 ==> b.limiter_ceiling == 1_000_000,
        -23_000_000 <= b.loudness_target_udb <= highest_target,
        -23_000_000 <= a.loudness_target_udb <= highest_target ==> b.loudness_target_udb == a.loudness_target_udb,
        a.loudness_target_udb < -23_000_000 ==> b.loudness_target_udb == -23_000_000,
        a.loudness_target_udb > highest_target ==> b.loudness_target_udb == highest_target,
        5 <= b.auto_sync_interval_mins <= 1440,
        5 <= a.auto_sync_interval_mins <= 1440 ==> b.auto_sync_interval_mins == a.auto_sync_interval_mins,
        a.auto_sync_interval_mins < 5 ==> b.auto_sync_interval_mins == 5,
        a.auto_sync_interval_mins > 1440 ==> b.auto_sync_interval_mins == 1440,
        b.eq_gains_udb@.len() == a.eq_gains_udb@.len(),
        forall|i: int|
            0 <= i < a.eq_gains_udb@.len() ==> -12_000_000 <= (#[trigger] b.eq_gains_udb@[i])
                <= 12_000_000 && (-12_000_000 <= a.eq_gains_udb@[i] <= 12_000_000 ==> b.eq_gains_udb@[i]
                == a.eq_gains_udb@[i]) && (a.eq_gains_udb@[i] > 12_000_000 ==> b.eq_gains_udb@[i]
                == 12_000_000) && (a.eq_gains_udb@[i] < -12_000_000 ==> b.eq_gains_udb@[i]
                == -12_000_000),
        text::trimmed(a.station_name@).len() > 0 ==> b.station_name@ == a.station_name@,
        text::trimmed(a.station_name@).len() == 0 ==> b.station_name@ == "CrabBoss FM"@,
        b.autodj == a.autodj && b.eq_enabled == a.eq_enabled && b.loudness_norm == a.loudness_norm
            && b.auto_sync_enabled == a.auto_sync_enabled,
        b.output_device == a.output_device && b.stream == a.stream,
{
}

/// One more folder is kept exactly where it is not blank and was not named
/// before, and it comes behind the others.
pub proof fn folders_keep_their_order(s: Seq<Seq<char>>, x: Seq<char>)
    ensures
        text::trimmed(x).len() > 0 && !s.contains(x) ==> kept_folders(s.push(x)) == kept_folders(s).push(
            x,
        ),
        text::trimmed(x).len() == 0 || s.contains(x) ==> kept_folders(s.push(x)) == kept_folders(s),
{
    folders_are_kept_once(s);
    assert(s.push(x).drop_last() =~= s);
    assert(kept_folders(s).contains(x) <==> s.contains(x) && !text::is_blank(x));
}

/// Only a file that cannot be used makes trouble, and its reason is told; the
/// settings that go on are then those of a first run.
pub proof fn troubles_are_told(load: SettingsLoad)
    ensures
        load.trouble() is None <==> load is Missing || load is Loaded,
        load matches SettingsLoad::Invalid { defaults, error } ==> load.trouble() == Some(error@)
            && load.usable() == defaults,
        load matches SettingsLoad::IoError { defaults, error } ==> load.trouble() == Some(error@)
            && load.usable() == defaults,
        load matches SettingsLoad::Loaded(s) ==> load.usable() == s,
        load matches SettingsLoad::Missing(s) ==> load.usable() == s,
{
}

} // verus!
