//! Offline license keys: `CB-XXXX-XXXX-XXXX`, the last four characters being
//! a checksum of the eight before them.

use vstd::prelude::*;
use vstd::string::*;

use crate::clock::{now, write_day, Stamp};
use crate::error::CrabError;
use crate::text::{chars_of, starts_text, text_of, to_upper};
use crate::clock;
use crate::text;

verus! {

/// Days that a trial lasts.
pub const TRIAL_DAYS: i64 = 30;

/// Seconds that a day lasts.
pub const DAY_SECS: i64 = 86400;

/// License tier.
#[derive(Debug, Clone, Copy, PartialEq, Eq, Structural)]
pub enum LicenseTier {
    Trial,
    Standard,
    Pro,
}

impl Default for LicenseTier {
    fn default() -> (r: Self)
        ensures
            r == LicenseTier::Trial,
    {
        LicenseTier::Trial
    }
}

impl LicenseTier {
    /// The name of a tier.
    pub open spec fn name(self) -> Seq<char> {
        match self {
            LicenseTier::Trial => "Trial"@,
            LicenseTier::Standard => "Standard"@,
            LicenseTier::Pro => "Pro"@,
        }
    }

    /// The name of a tier.
    pub fn as_str(self) -> (r: &'static str)
        ensures
            r@ == self.name(),
    {
        match self {
            LicenseTier::Trial => "Trial",
            LicenseTier::Standard => "Standard",
            LicenseTier::Pro => "Pro",
        }
    }
}

/// The start of the checksum register: the usual offset, mixed with the
/// vendor's number.
pub open spec fn hash_start() -> u32 {
    0x811c9dc5u32 ^ 0xC0FFEEu32
}

/// The checksum register after some bytes.
pub open spec fn hash_of(bytes: Seq<u8>) -> u32
    decreases bytes.len(),
{
    if bytes.len() == 0 {
        hash_start()
    } else {
        (hash_of(bytes.drop_last()) ^ (bytes.last() as u32)).wrapping_mul(0x01000193)
    }
}

/// The characters of checksums: capitals and digits that are not easily
/// mistaken for each other.
pub open spec fn check_char(i: int) -> char {
    if i < 8 {
        ((65 + i) as u8) as char
    } else if i < 13 {
        ((66 + i) as u8) as char
    } else if i < 24 {
        ((67 + i) as u8) as char
    } else {
        ((26 + i) as u8) as char
    }
}

/// The five bits of the register that make one checksum character.
pub open spec fn five_bits(h: u32, i: u32) -> u32 {
    (h >> ((5 * i) as u32)) & 31
}

/// The checksum of a payload.
pub open spec fn checksum(payload: Seq<char>) -> Seq<char> {
    let h = hash_of(vstd::utf8::encode_utf8(payload));
    Seq::new(4, |i: int| check_char(five_bits(h, i as u32) as int))
}

proof fn lemma_five_bits(h: u32, i: u32)
    requires
        i < 4,
    ensures
        five_bits(h, i) < 32,
{
    let r = h >> ((5 * i) as u32);
    assert(r & 31 < 32) by (bit_vector);
}

/// The checksum of a payload.
pub fn checksum_for(payload: &str) -> (r: String)
    ensures
        r@ == checksum(payload@),
{
    let b = payload.as_bytes();
    let mut h: u32 = 0x811c9dc5u32 ^ 0xC0FFEEu32;
    let mut i: usize = 0;
    assert(b@.subrange(0, 0) =~= Seq::empty());
    while i < b.len()
        invariant
            i <= b@.len(),
            h == hash_of(b@.subrange(0, i as int)),
        decreases b@.len() - i,
    {
        assert(b@.subrange(0, i + 1).drop_last() =~= b@.subrange(0, i as int));
        h = (h ^ (b[i] as u32)).wrapping_mul(0x01000193);
        i = i + 1;
    }
    assert(b@.subrange(0, i as int) =~= b@);
    let mut r = String::new();
    let mut k: u32 = 0;
    while k < 4
        invariant
            k <= 4,
            h == hash_of(vstd::utf8::encode_utf8(payload@)),
            r@ == checksum(payload@).subrange(0, k as int),
        decreases 4 - k,
    {
        let d: u32 = (h >> (5 * k)) & 31;
        proof {
            lemma_five_bits(h, k);
        }
        let c: u8 = d as u8;
        let x: u8 = if c < 8 {
            65 + c
        } else if c < 13 {
            66 + c
        } else if c < 24 {
            67 + c
        } else {
            26 + c
        };
        r.push(x as char);
        k = k + 1;
        assert(r@ =~= checksum(payload@).subrange(0, k as int));
    }
    assert(checksum(payload@).subrange(0, 4) =~= checksum(payload@));
    r
}

/// The letters and digits of what was typed, in capitals.
pub open spec fn normalized(s: Seq<char>) -> Seq<char> {
    text::raised(s).filter(|c: char| text::is_ascii_alnum(c))
}

/// The letters and digits of what was typed, in capitals.
pub fn normalize_key(input: &str) -> (r: String)
    ensures
        r@ == normalized(input@),
{
    let up = to_upper(input);
    let v = chars_of(up.as_str());
    let ghost keep = |c: char| text::is_ascii_alnum(c);
    let mut r = String::new();
    let mut i: usize = 0;
    proof {
        reveal(Seq::filter);
    }
    assert(v@.subrange(0, 0) =~= Seq::empty());
    assert(v@.subrange(0, 0).filter(keep) =~= Seq::empty());
    while i < v.len()
        invariant
            i <= v.len(),
            keep == (|c: char| text::is_ascii_alnum(c)),
            r@ == v@.subrange(0, i as int).filter(keep),
        decreases v.len() - i,
    {
        proof {
            reveal(Seq::filter);
        }
        assert(v@.subrange(0, i + 1).drop_last() =~= v@.subrange(0, i as int));
        let c = v[i];
        if ('A' <= c && c <= 'Z') || ('a' <= c && c <= 'z') || ('0' <= c && c <= '9') {
            r.push(c);
        }
        i = i + 1;
    }
    assert(v@.subrange(0, i as int) =~= v@);
    r
}

/// A key without the vendor's letters in front.
pub open spec fn stripped(s: Seq<char>) -> Seq<char> {
    if text::begins(s, "CB"@) {
        s.skip(2)
    } else {
        s
    }
}

/// Why a key is refused.
pub open spec fn objection(norm: Seq<char>) -> Option<Seq<char>> {
    let payload = stripped(norm);
    if !text::begins(norm, "CB"@) {
        Some("License must start with CB-"@)
    } else if payload.len() != 12 {
        Some("License format: CB-XXXX-XXXX-XXXX"@)
    } else if payload.skip(8) != checksum(payload.take(8)) {
        Some("Invalid license checksum"@)
    } else {
        None
    }
}

/// The tier that a payload stands for. What has no known prefix is a trial.
pub open spec fn tier_of(data: Seq<char>) -> LicenseTier {
    if text::begins(data, "DEMO"@) || text::begins(data, "TRIAL"@) {
        LicenseTier::Trial
    } else if text::begins(data, "STD"@) {
        LicenseTier::Standard
    } else if text::begins(data, "PRO"@) {
        LicenseTier::Pro
    } else {
        LicenseTier::Trial
    }
}

/// The days that a tier lasts; nothing for ever.
pub open spec fn days_of(tier: LicenseTier) -> Option<i64> {
    if tier == LicenseTier::Trial {
        Some(TRIAL_DAYS)
    } else {
        None
    }
}

/// A payload in the form that is shown.
pub open spec fn canonical(payload: Seq<char>) -> Seq<char> {
    "CB-"@ + payload.subrange(0, 4) + "-"@ + payload.subrange(4, 8) + "-"@ + payload.subrange(8, 12)
}

/// Check a key: its canonical form, its tier and the days it lasts.
pub fn validate_key(input: &str) -> (r: Result<(String, LicenseTier, Option<i64>), CrabError>)
    ensures
        ({
            let norm = normalized(input@);
            let payload = stripped(norm);
            match r {
                Ok((key, tier, days)) => {
                    &&& objection(norm) is None
                    &&& key@ == canonical(payload)
                    &&& tier == tier_of(payload.take(8))
                    &&& days == days_of(tier)
                },
                Err(CrabError::Library(m)) => objection(norm) == Some(m@),
                Err(_) => false,
            }
        }),
{
    let norm = normalize_key(input);
    if !starts_text(norm.as_str(), "CB") {
        return Err(CrabError::Library(String::from_str("License must start with CB-")));
    }
    proof {
        reveal_strlit("CB");
    }
    let all = chars_of(norm.as_str());
    let payload = vstd::slice::slice_subrange(all.as_slice(), 2, all.len());
    assert(payload@ =~= stripped(norm@));
    if payload.len() != 12 {
        return Err(CrabError::Library(String::from_str("License format: CB-XXXX-XXXX-XXXX")));
    }
    let data = text_of(vstd::slice::slice_subrange(payload, 0, 8));
    let check = text_of(vstd::slice::slice_subrange(payload, 8, 12));
    assert(data@ =~= payload@.take(8));
    assert(check@ =~= payload@.skip(8));
    let expected = checksum_for(data.as_str());
    if !crate::text::same_text(check.as_str(), expected.as_str()) {
        return Err(CrabError::Library(String::from_str("Invalid license checksum")));
    }
    let d = data.as_str();
    let tier = if starts_text(d, "DEMO") || starts_text(d, "TRIAL") {
        LicenseTier::Trial
    } else if starts_text(d, "STD") {
        LicenseTier::Standard
    } else if starts_text(d, "PRO") {
        LicenseTier::Pro
    } else {
        LicenseTier::Trial
    };
    let days: Option<i64> = if tier == LicenseTier::Trial {
        Some(TRIAL_DAYS)
    } else {
        None
    };
    let a = text_of(vstd::slice::slice_subrange(payload, 0, 4));
    let b = text_of(vstd::slice::slice_subrange(payload, 4, 8));
    let mut key = String::from_str("CB-");
    key.append(a.as_str());
    key.append("-");
    key.append(b.as_str());
    key.append("-");
    key.append(check.as_str());
    Ok((key, tier, days))
}

/// A key for a trial.
pub fn generate_demo_key() -> (r: String)
    ensures
        r@ == "CB-DEMO-DEMO-"@ + checksum("DEMODEMO"@),
{
    let c = checksum_for("DEMODEMO");
    let mut s = String::from_str("CB-DEMO-DEMO-");
    s.append(c.as_str());
    s
}

/// An accepted license.
#[derive(Debug)]
pub struct LicenseInfo {
    /// The key in its canonical form.
    pub key: String,
    pub holder: String,
    pub tier: LicenseTier,
    /// Nothing for a license that lasts for ever.
    pub expires_at: Option<Stamp>,
    pub activated_at: Stamp,
}

impl Clone for LicenseInfo {
    fn clone(&self) -> (r: Self)
        ensures
            r == *self,
    {
        LicenseInfo {
            key: self.key.clone(),
            holder: self.holder.clone(),
            tier: self.tier,
            expires_at: self.expires_at,
            activated_at: self.activated_at,
        }
    }
}

/// A license that a key gives at a moment.
pub open spec fn granted(norm: Seq<char>, holder: Seq<char>, at: Stamp, info: LicenseInfo) -> bool {
    let payload = stripped(norm);
    let tier = tier_of(payload.take(8));
    &&& info.key@ == canonical(payload)
    &&& info.holder@ == holder
    &&& info.tier == tier
    &&& info.activated_at == at
    &&& info.expires_at == (match days_of(tier) {
        Some(d) => Some(Stamp { secs: (at.secs + d * DAY_SECS) as i64, nanos: at.nanos }),
        None => None,
    })
}

/// A license runs out after its last moment.
pub open spec fn is_over(expires_at: Option<Stamp>, at: Stamp) -> bool {
    match expires_at {
        Some(e) => e.earlier(at),
        None => false,
    }
}

/// The line that shows a license at a moment.
pub open spec fn license_text(info: LicenseInfo, at: Stamp) -> Seq<char> {
    if is_over(info.expires_at, at) {
        "License expired"@
    } else {
        match info.expires_at {
            Some(e) => "Licensed ("@ + info.tier.name() + ") — "@ + info.holder@ + " — expires "@
                + clock::day_text(e.secs as int),
            None => "Licensed ("@ + info.tier.name() + ") — "@ + info.holder@,
        }
    }
}

impl LicenseInfo {
    /// The end, where there is one, lies within the calendar.
    pub open spec fn wf(self) -> bool {
        self.expires_at matches Some(e) ==> e.valid()
    }

    /// Whether the license is over at a moment.
    pub fn is_expired_at(&self, at: Stamp) -> (r: bool)
        ensures
            r == is_over(self.expires_at, at),
    {
        match self.expires_at {
            Some(e) => e.is_before(&at),
            None => false,
        }
    }

    /// Whether the license is over now. One without an end never is; when the
    /// others are is up to the clock.
    pub fn is_expired(&self) -> (r: bool)
        ensures
            self.expires_at is None ==> !r,
            exists|at: Stamp|
                at.valid() && at.secs >= 0 && r == #[trigger] is_over(self.expires_at, at),
    {
        let at = now();
        self.is_expired_at(at)
    }

    /// The line that shows the license at a moment.
    pub fn status_label_at(&self, at: Stamp) -> (r: String)
        requires
            self.wf(),
        ensures
            r@ == license_text(*self, at),
    {
        if self.is_expired_at(at) {
            return String::from_str("License expired");
        }
        let mut s = String::from_str("Licensed (");
        s.append(self.tier.as_str());
        s.append(") — ");
        s.append(self.holder.as_str());
        if let Some(e) = self.expires_at {
            s.append(" — expires ");
            let day = write_day(e);
            s.append(day.as_str());
        }
        s
    }

    /// The line that shows the license now; which side of its end now is, is
    /// up to the clock.
    pub fn status_label(&self) -> (r: String)
        requires
            self.wf(),
        ensures
            exists|at: Stamp|
                at.valid() && at.secs >= 0 && r@ == #[trigger] license_text(*self, at),
    {
        let at = now();
        self.status_label_at(at)
    }
}

/// Turn a key into a license at a moment.
pub fn activate_key_at(input: &str, holder: &str, at: Stamp) -> (r: Result<LicenseInfo, CrabError>)
    requires
        at.valid(),
    ensures
        match r {
            Ok(info) => objection(normalized(input@)) is None && granted(
                normalized(input@),
                holder@,
                at,
                info,
            ) && (at.secs + TRIAL_DAYS * DAY_SECS <= 8210266876799 && at.nanos < 1_000_000_000
                ==> info.wf()),
            Err(CrabError::Library(m)) => objection(normalized(input@)) == Some(m@),
            Err(_) => false,
        },
{
    match validate_key(input) {
        Ok((key, tier, days)) => {
            let expires_at = match days {
                Some(d) => Some(Stamp { secs: at.secs + d * DAY_SECS, nanos: at.nanos }),
                None => None,
            };
            Ok(
                LicenseInfo {
                    key,
                    holder: String::from_str(holder),
                    tier,
                    expires_at,
                    activated_at: at,
                },
            )
        },
        Err(e) => Err(e),
    }
}

/// Turn a key into a license that starts now; when that is, is up to the
/// clock.
pub fn activate_key(input: &str, holder: &str) -> (r: Result<LicenseInfo, CrabError>)
    ensures
        match r {
            Ok(info) => objection(normalized(input@)) is None && granted(
                normalized(input@),
                holder@,
                info.activated_at,
                info,
            ) && info.activated_at.valid() && info.activated_at.secs >= 0
                && info.activated_at.nanos < 1_000_000_000 && (info.activated_at.secs + TRIAL_DAYS
                * DAY_SECS <= 8210266876799 ==> info.wf()),
            Err(CrabError::Library(m)) => objection(normalized(input@)) == Some(m@),
            Err(_) => false,
        },
{
    activate_key_at(input, holder, now())
}

/// Whether there is a license.
#[derive(Debug, Clone)]
pub enum LicenseStatus {
    Unlicensed,
    Licensed(LicenseInfo),
}

impl LicenseStatus {
    /// The line that shows the status at a moment.
    pub fn label_at(&self, at: Stamp) -> (r: String)
        requires
            *self matches LicenseStatus::Licensed(info) ==> info.wf(),
        ensures
            r@ == (match *self {
                LicenseStatus::Unlicensed => "Unlicensed — all features enabled for now"@,
                LicenseStatus::Licensed(info) => license_text(info, at),
            }),
    {
        match self {
            LicenseStatus::Unlicensed => String::from_str(
                "Unlicensed — all features enabled for now",
            ),
            LicenseStatus::Licensed(info) => info.status_label_at(at),
        }
    }

    /// The line that shows the status now.
    pub fn label(&self) -> (r: String)
        requires
            *self matches LicenseStatus::Licensed(info) ==> info.wf(),
        ensures
            match *self {
                LicenseStatus::Unlicensed => r@ == "Unlicensed — all features enabled for now"@,
                LicenseStatus::Licensed(info) => exists|at: Stamp|
                    at.valid() && at.secs >= 0 && r@ == #[trigger] license_text(info, at),
            },
    {
        let at = now();
        self.label_at(at)
    }

    /// Whether the features are on. For now they always are, whatever the
    /// license.
    pub fn features_enabled(&self) -> (r: bool)
        ensures
            r,
    {
        true
    }
}

/// The license that is in force.
#[derive(Debug, Clone)]
pub struct LicenseStore {
    pub status: LicenseStatus,
}

impl LicenseStore {
    /// The store for what was saved; what could not be read counts as nothing.
    pub fn open(saved: Option<LicenseInfo>) -> (s: Self)
        ensures
            s.status == (match saved {
                Some(info) => LicenseStatus::Licensed(info),
                None => LicenseStatus::Unlicensed,
            }),
    {
        match saved {
            Some(info) => LicenseStore { status: LicenseStatus::Licensed(info) },
            None => LicenseStore { status: LicenseStatus::Unlicensed },
        }
    }

    /// The status in force.
    pub fn status(&self) -> (r: &LicenseStatus)
        ensures
            *r == self.status,
    {
        &self.status
    }

    /// Put an activated license in force, once it was saved.
    pub fn activate(&mut self, info: LicenseInfo)
        ensures
            final(self).status == LicenseStatus::Licensed(info),
    {
        self.status = LicenseStatus::Licensed(info);
    }

    /// Forget the license.
    pub fn clear(&mut self)
        ensures
            final(self).status == LicenseStatus::Unlicensed,
    {
        self.status = LicenseStatus::Unlicensed;
    }
}

/// A capital or a digit.
pub open spec fn is_key_char(c: char) -> bool {
    text::is_ascii_upper(c) || text::is_digit(c)
}

/// The key for a payload of eight characters.
pub open spec fn minted(data: Seq<char>) -> Seq<char> {
    "CB-"@ + data.subrange(0, 4) + "-"@ + data.subrange(4, 8) + "-"@ + checksum(data)
}

/// A payload that a key can be made for: eight letters and digits, typed in
/// any case.
pub open spec fn mintable(payload: Seq<char>) -> bool {
    normalized(payload).len() == 8 && text::raised(payload).len() == 8
}

/// The key for a payload, or the reason why there is none.
pub fn generate_key_for(payload: &str) -> (r: Result<String, CrabError>)
    ensures
        match r {
            Ok(key) => mintable(payload@) && key@ == minted(normalized(payload@)),
            Err(CrabError::Library(m)) => !mintable(payload@) && m@
                == "License payload: 8 letters or digits"@,
            Err(_) => false,
        },
{
    let data = normalize_key(payload);
    let v = chars_of(data.as_str());
    let typed: usize = chars_of(to_upper(payload).as_str()).len();
    if v.len() != 8 || typed != 8 {
        return Err(
            CrabError::Library(String::from_str("License payload: 8 letters or digits")),
        );
    }
    let c = checksum_for(data.as_str());
    let mut s = String::from_str("CB-");
    let a = text_of(vstd::slice::slice_subrange(v.as_slice(), 0, 4));
    s.append(a.as_str());
    s.append("-");
    let b = text_of(vstd::slice::slice_subrange(v.as_slice(), 4, 8));
    s.append(b.as_str());
    s.append("-");
    s.append(c.as_str());
    Ok(s)
}

proof fn lemma_keep_all(s: Seq<char>)
    requires
        forall|i: int| 0 <= i < s.len() ==> is_key_char(#[trigger] s[i]),
    ensures
        s.filter(|c: char| text::is_ascii_alnum(c)) == s,
    decreases s.len(),
{
    reveal(Seq::filter);
    if s.len() > 0 {
        let t = s.drop_last();
        assert forall|i: int| 0 <= i < t.len() implies is_key_char(#[trigger] t[i]) by {
            assert(t[i] == s[i]);
        }
        lemma_keep_all(t);
        assert(t.push(s.last()) =~= s);
    }
}

proof fn lemma_check_chars(data: Seq<char>)
    ensures
        checksum(data).len() == 4,
        forall|i: int| 0 <= i < 4 ==> is_key_char(#[trigger] checksum(data)[i]),
{
    let h = hash_of(vstd::utf8::encode_utf8(data));
    assert forall|i: int| 0 <= i < 4 implies is_key_char(#[trigger] checksum(data)[i]) by {
        lemma_five_bits(h, i as u32);
    }
}

proof fn lemma_minted_letters(data: Seq<char>)
    requires
        data.len() == 8,
        forall|i: int| 0 <= i < 8 ==> is_key_char(#[trigger] data[i]),
    ensures
        normalized(minted(data)) == seq!['C', 'B'] + data + checksum(data),
{
    reveal_strlit("CB-");
    reveal_strlit("-");
    lemma_check_chars(data);
    let m = minted(data);
    let a = data.subrange(0, 4);
    let b = data.subrange(4, 8);
    let c = checksum(data);
    let keep = |x: char| text::is_ascii_alnum(x);
    assert forall|i: int| 0 <= i < m.len() implies is_key_char(#[trigger] m[i]) || m[i] == '-' by {
        if i < 3 {
            assert(m[i] == "CB-"@[i]);
        } else if i < 7 {
            assert(m[i] == data[i - 3]);
        } else if i == 7 {
        } else if i < 12 {
            assert(m[i] == data[i - 4]);
        } else if i == 12 {
        } else {
            assert(m[i] == c[i - 13]);
        }
    }
    assert(text::is_ascii_text(m)) by {
        assert forall|i: int| 0 <= i < m.len() implies (#[trigger] m[i]) as int <= 127 by {
            assert(is_key_char(m[i]) || m[i] == '-');
        }
    }
    assert(text::raise(m) =~= m) by {
        assert forall|i: int| 0 <= i < m.len() implies text::raise(m)[i] == m[i] by {
            assert(is_key_char(m[i]) || m[i] == '-');
        }
    }
    Seq::filter_distributes_over_add("CB-"@ + a + "-"@ + b + "-"@, c, keep);
    Seq::filter_distributes_over_add("CB-"@ + a + "-"@ + b, "-"@, keep);
    Seq::filter_distributes_over_add("CB-"@ + a + "-"@, b, keep);
    Seq::filter_distributes_over_add("CB-"@ + a, "-"@, keep);
    Seq::filter_distributes_over_add("CB-"@, a, keep);
    assert("CB-"@ =~= seq!['C', 'B'] + "-"@);
    Seq::filter_distributes_over_add(seq!['C', 'B'], "-"@, keep);
    assert("-"@.filter(keep) =~= Seq::empty()) by {
        reveal(Seq::filter);
        assert("-"@.drop_last() =~= Seq::empty());
        assert(Seq::<char>::empty().filter(keep) =~= Seq::empty());
    }
    lemma_keep_all(seq!['C', 'B']);
    lemma_keep_all(a);
    lemma_keep_all(b);
    lemma_keep_all(c);
    assert(m.filter(keep) =~= seq!['C', 'B'] + data + c);
}

/// A key that was made for a payload of eight capitals and digits validates,
/// and is its own canonical form.
pub proof fn minted_keys_validate(data: Seq<char>)
    requires
        data.len() == 8,
        forall|i: int| 0 <= i < 8 ==> is_key_char(#[trigger] data[i]),
    ensures
        objection(normalized(minted(data))) is None,
        canonical(stripped(normalized(minted(data)))) == minted(data),
        stripped(normalized(minted(data))).take(8) == data,
{
    reveal_strlit("CB");
    lemma_minted_letters(data);
    lemma_check_chars(data);
    let norm = normalized(minted(data));
    let payload = data + checksum(data);
    assert(norm =~= seq!['C', 'B'] + payload);
    assert(norm.subrange(0, 2) =~= "CB"@);
    assert(norm.skip(2) =~= payload);
    assert(payload.take(8) =~= data);
    assert(payload.skip(8) =~= checksum(data));
    assert(payload.subrange(0, 4) =~= data.subrange(0, 4));
    assert(payload.subrange(4, 8) =~= data.subrange(4, 8));
    assert(payload.subrange(8, 12) =~= checksum(data));
}

/// The demo key validates, as a trial.
pub proof fn the_demo_key_validates()
    ensures
        "CB-DEMO-DEMO-"@ + checksum("DEMODEMO"@) == minted("DEMODEMO"@),
        objection(normalized(minted("DEMODEMO"@))) is None,
        tier_of("DEMODEMO"@) == LicenseTier::Trial,
{
    reveal_strlit("CB-DEMO-DEMO-");
    reveal_strlit("DEMODEMO");
    reveal_strlit("CB-");
    reveal_strlit("-");
    reveal_strlit("DEMO");
    let d = "DEMODEMO"@;
    assert(d.subrange(0, 4) =~= "DEMO"@);
    assert("CB-DEMO-DEMO-"@ =~= "CB-"@ + d.subrange(0, 4) + "-"@ + d.subrange(4, 8) + "-"@);
    minted_keys_validate(d);
}

/// A license is in force up to and including the moment at which it ends, and
/// over from then on.
pub proof fn licenses_end_once(expires_at: Option<Stamp>, a: Stamp, b: Stamp)
    requires
        a.earlier(b),
    ensures
        is_over(expires_at, a) ==> is_over(expires_at, b),
        expires_at is None ==> !is_over(expires_at, a),
        expires_at == Some(a) ==> !is_over(expires_at, a) && is_over(expires_at, b),
{
}

/// The tier of a key goes by the first letters of its payload, and anything
/// else is a trial. A trial lasts thirty days from its activation, to the
/// second; the other tiers do not end.
pub proof fn tiers_go_by_their_letters(
    data: Seq<char>,
    norm: Seq<char>,
    holder: Seq<char>,
    at: Stamp,
    info: LicenseInfo,
)
    requires
        granted(norm, holder, at, info),
        at.secs + 2_592_000 <= i64::MAX,
    ensures
        tier_of(seq!['P', 'R', 'O'] + data) == LicenseTier::Pro,
        tier_of(seq!['S', 'T', 'D'] + data) == LicenseTier::Standard,
        tier_of(data) != LicenseTier::Trial ==> data.len() >= 3 && (data[0] == 'P' || data[0] == 'S'),
        tier_of(data) == LicenseTier::Pro ==> data.len() >= 3 && data[0] == 'P' && data[1] == 'R' && data[2]
            == 'O',
        tier_of(data) == LicenseTier::Standard ==> data.len() >= 3 && data[0] == 'S' && data[1] == 'T'
            && data[2] == 'D',
        info.tier == LicenseTier::Trial ==> info.expires_at is Some && info.expires_at->0.secs
            == at.secs + 2_592_000 && info.expires_at->0.nanos == at.nanos,
        info.tier != LicenseTier::Trial ==> info.expires_at is None,
        info.holder@ == holder,
        info.activated_at == at,
{
    reveal_strlit("DEMO");
    reveal_strlit("TRIAL");
    reveal_strlit("STD");
    reveal_strlit("PRO");
    let p = seq!['P', 'R', 'O'] + data;
    let s = seq!['S', 'T', 'D'] + data;
    assert(p.subrange(0, 3) =~= "PRO"@);
    assert(s.subrange(0, 3) =~= "STD"@);
    assert(p[0] == 'P' && s[0] == 'S');
    if p.len() >= 4 {
        assert(p.subrange(0, 4)[0] == 'P');
        assert(s.subrange(0, 4)[0] == 'S');
    }
    if p.len() >= 5 {
        assert(p.subrange(0, 5)[0] == 'P');
        assert(s.subrange(0, 5)[0] == 'S');
    }
    assert(p.subrange(0, 3)[0] == 'P');
    assert("DEMO"@[0] == 'D' && "TRIAL"@[0] == 'T' && "STD"@[0] == 'S' && "PRO"@[0] == 'P');
    if text::begins(data, "STD"@) {
        assert(data.subrange(0, 3)[0] == data[0]);
        assert(data.subrange(0, 3)[1] == data[1]);
        assert(data.subrange(0, 3)[2] == data[2]);
    }
    if text::begins(data, "PRO"@) {
        assert(data.subrange(0, 3)[0] == data[0]);
        assert(data.subrange(0, 3)[1] == data[1]);
        assert(data.subrange(0, 3)[2] == data[2]);
    }
}

/// Only a key whose last four characters are the checksum of the eight before
/// them validates, and then it is the key that is made for these eight.
pub proof fn only_minted_keys_validate(data: Seq<char>, check: Seq<char>)
    requires
        data.len() == 8,
        check.len() == 4,
    ensures
        objection(seq!['C', 'B'] + data + check) is None <==> check == checksum(data),
        check == checksum(data) ==> canonical(stripped(seq!['C', 'B'] + data + check)) == minted(data),
        forall|norm: Seq<char>|
            norm.len() != 14 || norm[0] != 'C' || norm[1] != 'B' ==> #[trigger] objection(norm) is Some,
{
    reveal_strlit("CB");
    let norm = seq!['C', 'B'] + data + check;
    assert(norm.subrange(0, 2) =~= "CB"@);
    assert(norm.skip(2) =~= data + check);
    let payload = norm.skip(2);
    assert(payload.take(8) =~= data);
    assert(payload.skip(8) =~= check);
    assert(payload.subrange(0, 4) =~= data.subrange(0, 4));
    assert(payload.subrange(4, 8) =~= data.subrange(4, 8));
    assert(payload.subrange(8, 12) =~= check);
    assert forall|norm: Seq<char>| norm.len() != 14 || norm[0] != 'C' || norm[1] != 'B' implies
        #[trigger] objection(norm) is Some by {
        if text::begins(norm, "CB"@) {
            assert(norm.subrange(0, 2)[0] == norm[0] && norm.subrange(0, 2)[1] == norm[1]);
        }
    }
}

/// The checksum is made of the low twenty bits of the hash, five at a time and
/// the lowest first, in an alphabet of letters without I and O and digits
/// without 0 and 1.
pub proof fn checksums_spell_the_hash(payload: Seq<char>)
    ensures
        ({
            let h = hash_of(vstd::utf8::encode_utf8(payload)) as int;
            let alphabet = "ABCDEFGHJKLMNPQRSTUVWXYZ23456789"@;
            &&& alphabet.len() == 32
            &&& checksum(payload).len() == 4
            &&& checksum(payload)[0] == alphabet[h % 32]
            &&& checksum(payload)[1] == alphabet[h / 32 % 32]
            &&& checksum(payload)[2] == alphabet[h / 1024 % 32]
            &&& checksum(payload)[3] == alphabet[h / 32768 % 32]
        }),
{
    reveal_strlit("ABCDEFGHJKLMNPQRSTUVWXYZ23456789");
    let h = hash_of(vstd::utf8::encode_utf8(payload));
    let alphabet = "ABCDEFGHJKLMNPQRSTUVWXYZ23456789"@;
    assert((h >> 0u32) & 31 == h % 32 && (h >> 5u32) & 31 == h / 32 % 32 && (h >> 10u32) & 31 == h / 1024
        % 32 && (h >> 15u32) & 31 == h / 32768 % 32) by (bit_vector);
    assert forall|i: int| 0 <= i < 32 implies #[trigger] check_char(i) == alphabet[i] by {
        assert(i == 0 || i == 1 || i == 2 || i == 3 || i == 4 || i == 5 || i == 6 || i == 7 || i == 8
            || i == 9 || i == 10 || i == 11 || i == 12 || i == 13 || i == 14 || i == 15 || i == 16 || i
            == 17 || i == 18 || i == 19 || i == 20 || i == 21 || i == 22 || i == 23 || i == 24 || i
            == 25 || i == 26 || i == 27 || i == 28 || i == 29 || i == 30 || i == 31);
    }
    assert(checksum(payload)[0] == check_char(five_bits(h, 0) as int));
    assert(checksum(payload)[1] == check_char(five_bits(h, 1) as int));
    assert(checksum(payload)[2] == check_char(five_bits(h, 2) as int));
    assert(checksum(payload)[3] == check_char(five_bits(h, 3) as int));
}

/// The hash takes in one byte after the other: each is mixed in by exclusive or
/// and spread by a multiplication with the FNV prime, from a start of its own.
pub proof fn hashes_take_byte_by_byte(bytes: Seq<u8>, b: u8)
    ensures
        hash_of(Seq::<u8>::empty()) == 0x811c9dc5u32 ^ 0xc0ffeeu32,
        hash_of(bytes.push(b)) as int == (hash_of(bytes) ^ (b as u32)) * 16777619 % 0x1_0000_0000,
{
    assert(bytes.push(b).drop_last() =~= bytes);
}

proof fn lemma_filter_parts(a: Seq<char>, c: char, b: Seq<char>, p: spec_fn(char) -> bool)
    ensures
        (a + seq![c] + b).filter(p) == a.filter(p) + (if p(c) {
            seq![c]
        } else {
            Seq::empty()
        }) + b.filter(p),
    decreases b.len(),
{
    reveal(Seq::filter);
    let s = a + seq![c] + b;
    if b.len() > 0 {
        assert(s.drop_last() =~= a + seq![c] + b.drop_last());
        lemma_filter_parts(a, c, b.drop_last(), p);
        assert(s.filter(p) =~= a.filter(p) + (if p(c) {
            seq![c]
        } else {
            Seq::empty()
        }) + b.filter(p));
    } else {
        assert(s =~= a.push(c));
        assert(s.drop_last() =~= a);
        assert(b.filter(p) =~= Seq::<char>::empty());
        assert(s.filter(p) =~= a.filter(p) + (if p(c) {
            seq![c]
        } else {
            Seq::empty()
        }) + b.filter(p));
    }
}

/// How a key of ASCII characters is read: what is neither letter nor digit
/// counts for nothing, and small letters count as capitals.
pub proof fn keys_are_read_without_dashes(a: Seq<char>, c: char, b: Seq<char>)
    requires
        text::is_ascii_text(a),
        text::is_ascii_text(b),
        c as int <= 127,
    ensures
        !('a' <= c <= 'z') && !('A' <= c <= 'Z') && !('0' <= c <= '9') ==> normalized(
            a + seq![c] + b,
        ) == normalized(a + b),
        'a' <= c <= 'z' ==> normalized(a + seq![c] + b) == normalized(
            a + seq![((c as u32 - 32) as u32) as char] + b,
        ),
        'A' <= c <= 'Z' || '0' <= c <= '9' ==> normalized(a + seq![c] + b) == normalized(a) + seq![c]
            + normalized(b),
{
    let p = |c: char| text::is_ascii_alnum(c);
    let up = if 'a' <= c <= 'z' {
        ((c as u32 - 32) as u32) as char
    } else {
        c
    };
    lemma_raised_parts(a, c, b);
    lemma_raised_parts(a, up, b);
    lemma_filter_parts(text::raised(a), text::raise_char(c), text::raised(b), p);
    lemma_filter_parts(text::raised(a), text::raise_char(up), text::raised(b), p);
    assert(text::raised(a + b) =~= text::raised(a) + text::raised(b));
    let x = text::raised(a);
    let y = text::raised(b);
    lemma_filter_add(x, y, p);
    assert(x.filter(p) + Seq::<char>::empty() =~= x.filter(p));
}

proof fn lemma_filter_add(a: Seq<char>, b: Seq<char>, p: spec_fn(char) -> bool)
    ensures
        (a + b).filter(p) == a.filter(p) + b.filter(p),
    decreases b.len(),
{
    reveal(Seq::filter);
    if b.len() > 0 {
        assert((a + b).drop_last() =~= a + b.drop_last());
        lemma_filter_add(a, b.drop_last(), p);
        assert((a + b).filter(p) =~= a.filter(p) + b.filter(p));
    } else {
        assert(a + b =~= a);
        assert(b.filter(p) =~= Seq::<char>::empty());
        assert(a.filter(p) + b.filter(p) =~= a.filter(p));
    }
}

proof fn lemma_raised_parts(a: Seq<char>, c: char, b: Seq<char>)
    requires
        text::is_ascii_text(a),
        text::is_ascii_text(b),
        c as int <= 127,
    ensures
        text::raised(a + seq![c] + b) == text::raised(a) + seq![text::raise_char(c)] + text::raised(b),
{
    let s = a + seq![c] + b;
    assert forall|i: int| 0 <= i < s.len() implies (#[trigger] s[i]) as int <= 127 by {
        if i < a.len() {
            assert(a[i] as int <= 127);
        } else if i > a.len() {
            assert(b[i - a.len() - 1] as int <= 127);
        }
    }
    assert(text::raised(s) =~= text::raised(a) + seq![text::raise_char(c)] + text::raised(b));
}

/// A license that runs shows its tier, its holder and its last day; one that is
/// over shows neither tier nor holder.
pub proof fn licenses_show_their_holder(info: LicenseInfo, other: LicenseInfo, at: Stamp)
    ensures
        !is_over(info.expires_at, at) ==> text::holds(license_text(info, at), info.tier.name())
            && text::holds(license_text(info, at), info.holder@),
        !is_over(info.expires_at, at) && info.expires_at is Some ==> text::ends(
            license_text(info, at),
            clock::day_text(info.expires_at->0.secs as int),
        ),
        is_over(info.expires_at, at) && is_over(other.expires_at, at) ==> license_text(info, at)
            == license_text(other, at),
{
    if !is_over(info.expires_at, at) {
        let w = license_text(info, at);
        let tail = match info.expires_at {
            Some(e) => " — expires "@ + clock::day_text(e.secs as int),
            None => Seq::empty(),
        };
        let name = info.tier.name();
        let a = "Licensed ("@;
        assert(w =~= a + name + (") — "@ + info.holder@ + tail));
        text::middles_are_held(a, name, ") — "@ + info.holder@ + tail);
        let b = a + name + ") — "@;
        assert(w =~= b + info.holder@ + tail);
        text::middles_are_held(b, info.holder@, tail);
        if info.expires_at is Some {
            let d = clock::day_text(info.expires_at->0.secs as int);
            assert(w.skip(w.len() - d.len()) =~= d);
        }
    }
}

} // verus!
