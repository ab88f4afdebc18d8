//! The storage engine's naming, backup rotation and export rules. The file
//! system calls themselves are made by the host around these functions.
use vstd::prelude::*;
use crate::clock::unix_now;
use crate::telemetry::TelemetryData;
use crate::text::{centi_string, centi_text, decimal, decimal_string, signed_string, signed_text};

pub mod utils;

verus! {

/// Where the current record, its sessions and its backups live.
pub struct Storage {
    pub file_path: String,
    pub backup_dir: String,
}

/// Why a storage operation failed.
#[derive(Debug, PartialEq, Eq)]
pub enum StorageError {
    /// The file system refused the operation.
    IoError(String),
    /// A value could not be written out.
    SerializationError(String),
    /// A stored file does not hold a well-formed record.
    CorruptData(String),
    /// The record, session or backup does not exist.
    NotFound(String),
}

/// Code-point-wise lexicographic order on text; for UTF-8 this is also the
/// byte-wise order that `String` compares by.
pub open spec fn text_le(a: Seq<char>, b: Seq<char>) -> bool
    decreases a.len(),
{
    if a.len() == 0 {
        true
    } else if b.len() == 0 {
        false
    } else if a[0] != b[0] {
        (a[0] as u32) < (b[0] as u32)
    } else {
        text_le(a.drop_first(), b.drop_first())
    }
}

pub open spec fn sorted_texts(s: Seq<Seq<char>>) -> bool {
    forall|i: int, j: int| 0 <= i < j < s.len() ==> text_le(#[trigger] s[i], #[trigger] s[j])
}

pub open spec fn views(s: Seq<String>) -> Seq<Seq<char>> {
    s.map_values(|x: String| x@)
}

/// A file name with a non-empty stem and the extension "json".
pub open spec fn is_json_name(s: Seq<char>) -> bool {
    &&& s.len() > 5
    &&& s[s.len() - 5] == '.'
    &&& s[s.len() - 4] == 'j'
    &&& s[s.len() - 3] == 's'
    &&& s[s.len() - 2] == 'o'
    &&& s[s.len() - 1] == 'n'
}

/// The JSON file names among the first `n` names, in their order.
pub open spec fn json_names(s: Seq<Seq<char>>, n: int) -> Seq<Seq<char>>
    decreases n,
{
    if n <= 0 {
        Seq::empty()
    } else if is_json_name(s[n - 1]) {
        json_names(s, n - 1).push(s[n - 1])
    } else {
        json_names(s, n - 1)
    }
}

/// How many of `count` backups rotation removes when it keeps `keep`.
pub open spec fn excess(count: int, keep: int) -> int {
    if count <= keep {
        0
    } else {
        count - keep
    }
}

/// Relies on `slice::sort` for `String`: the same names, ordered by their
/// bytes (which is code-point order).
#[verifier::external_body]
fn sort_names(names: &mut Vec<String>)
    ensures
        views(final(names)@).to_multiset() == views(old(names)@).to_multiset(),
        sorted_texts(views(final(names)@)),
{
    names.sort();
}

fn json_name(s: &String) -> (r: bool)
    ensures
        r == is_json_name(s@),
{
    let t = s.as_str();
    let n = t.unicode_len();
    n > 5 && t.get_char(n - 5) == '.' && t.get_char(n - 4) == 'j' && t.get_char(n - 3) == 's'
        && t.get_char(n - 2) == 'o' && t.get_char(n - 1) == 'n'
}

/// The backups among the entries of the backup directory: the names with the
/// extension "json", oldest first (backup names sort by their timestamp).
pub fn order_backups(entries: Vec<String>) -> (r: Vec<String>)
    ensures
        views(r@).to_multiset() == json_names(views(entries@), entries@.len() as int).to_multiset(),
        sorted_texts(views(r@)),
{
    let mut names: Vec<String> = Vec::new();
    let mut i: usize = 0;
    while i < entries.len()
        invariant
            i <= entries@.len(),
            views(names@) == json_names(views(entries@), i as int),
        decreases entries.len() - i,
    {
        if json_name(&entries[i]) {
            names.push(entries[i].clone());
        }
        assert(views(names@) =~= json_names(views(entries@), i + 1));
        i = i + 1;
    }
    sort_names(&mut names);
    names
}

/// The backups that rotation removes: the oldest ones beyond the newest
/// `keep_count`, given the backups oldest first.
pub fn backups_to_remove(backups: &Vec<String>, keep_count: usize) -> (r: Vec<String>)
    ensures
        r@ == backups@.take(excess(backups@.len() as int, keep_count as int)),
{
    let mut doomed: Vec<String> = Vec::new();
    if backups.len() <= keep_count {
        assert(doomed@ =~= backups@.take(0));
        return doomed;
    }
    let to_delete = backups.len() - keep_count;
    let mut i: usize = 0;
    while i < to_delete
        invariant
            to_delete <= backups@.len(),
            i <= to_delete,
            doomed@ == backups@.take(i as int),
        decreases to_delete - i,
    {
        doomed.push(backups[i].clone());
        i = i + 1;
        assert(doomed@ =~= backups@.take(i as int));
    }
    doomed
}

/// Rotation removes exactly the oldest `max(0, count - keep)` backups and
/// leaves at least `min(keep, count)`; the ones left are the newest.
pub proof fn lemma_rotation_keeps_newest(backups: Seq<String>, keep: int)
    requires
        keep >= 0,
    ensures
        excess(backups.len() as int, keep) == (if backups.len() > keep {
            backups.len() - keep
        } else {
            0
        }),
        backups.len() - excess(backups.len() as int, keep) >= (if keep < backups.len() {
            keep
        } else {
            backups.len() as int
        }),
        backups.take(excess(backups.len() as int, keep)) + backups.skip(
            excess(backups.len() as int, keep),
        ) == backups,
        backups.skip(excess(backups.len() as int, keep)).len() == (if keep < backups.len() {
            keep
        } else {
            backups.len() as int
        }),
{
    assert(backups.take(excess(backups.len() as int, keep)) + backups.skip(
        excess(backups.len() as int, keep),
    ) =~= backups);
}

impl Storage {
    /// A store whose backups live in `<file_path>.backups`.
    pub fn new(file_path: &str) -> (r: Self)
        ensures
            r.file_path@ == file_path@,
            r.backup_dir@ == file_path@ + ".backups"@,
    {
        let backup_dir = String::from_str(file_path).concat(".backups");
        Storage { file_path: String::from_str(file_path), backup_dir }
    }

    /// The session file `<file_path>.session_<id>`.
    pub fn session_file(&self, session_id: &str) -> (r: String)
        ensures
            r@ == self.file_path@ + ".session_"@ + session_id@,
    {
        self.file_path.clone().concat(".session_").concat(session_id)
    }

    /// The session file for a session captured at `timestamp`.
    pub fn session_file_at(&self, timestamp: u64) -> (r: String)
        ensures
            r@ == self.file_path@ + ".session_"@ + decimal(timestamp as nat),
    {
        let id = decimal_string(timestamp);
        self.session_file(id.as_str())
    }

    /// The path of the backup named `backup_name`.
    pub fn backup_file(&self, backup_name: &str) -> (r: String)
        ensures
            r@ == self.backup_dir@ + "/"@ + backup_name@,
    {
        self.backup_dir.clone().concat("/").concat(backup_name)
    }

    /// The name of a backup taken at `timestamp`: `backup_<timestamp>.json`.
    pub fn backup_name_at(timestamp: u64) -> (r: String)
        ensures
            r@ == "backup_"@ + decimal(timestamp as nat) + ".json"@,
    {
        let stamp = decimal_string(timestamp);
        String::from_str("backup_").concat(stamp.as_str()).concat(".json")
    }

    /// The path of a backup taken at `timestamp`.
    pub fn backup_file_at(&self, timestamp: u64) -> (r: String)
        ensures
            r@ == self.backup_dir@ + "/"@ + "backup_"@ + decimal(timestamp as nat) + ".json"@,
    {
        let name = Self::backup_name_at(timestamp);
        let r = self.backup_file(name.as_str());
        assert(r@ =~= self.backup_dir@ + "/"@ + "backup_"@ + decimal(timestamp as nat) + ".json"@);
        r
    }
}

/// The CSV header: the sixteen exported columns in their fixed order.
pub open spec fn csv_header() -> Seq<char> {
    "timestamp,speed,rpm,engine_temp,fuel_level,battery_voltage,oil_pressure,throttle_position,brake_pressure,gear,acceleration,brake_temperature,tire_pressure_fl,tire_pressure_fr,tire_pressure_rl,tire_pressure_rr\n"@
}

/// The CSV export of a record: the header, then one data row with the
/// values in the header's order.
pub open spec fn csv_text(d: TelemetryData) -> Seq<char> {
    csv_header() + decimal(d.timestamp as nat) + ","@ + centi_text(d.speed as int) + ","@
        + centi_text(d.rpm as int) + ","@ + centi_text(d.engine_temp as int) + ","@ + centi_text(
        d.fuel_level as int,
    ) + ","@ + centi_text(d.battery_voltage as int) + ","@ + centi_text(d.oil_pressure as int)
        + ","@ + centi_text(d.throttle_position as int) + ","@ + centi_text(d.brake_pressure as int)
        + ","@ + signed_text(d.gear as int) + ","@ + centi_text(d.acceleration as int) + ","@
        + centi_text(d.brake_temperature as int) + ","@ + centi_text(d.tire_pressure_fl as int)
        + ","@ + centi_text(d.tire_pressure_fr as int) + ","@ + centi_text(d.tire_pressure_rl as int)
        + ","@ + centi_text(d.tire_pressure_rr as int) + "\n"@
}

fn append_centi(out: &mut String, v: i64)
    ensures
        final(out)@ == old(out)@ + ","@ + centi_text(v as int),
{
    out.append(",");
    let t = centi_string(v);
    out.append(t.as_str());
}

/// The CSV export of a record: the header, then one data row.
pub fn csv_export(data: &TelemetryData) -> (r: String)
    ensures
        r@ == csv_text(*data),
{
    let mut out = String::from_str(
        "timestamp,speed,rpm,engine_temp,fuel_level,battery_voltage,oil_pressure,throttle_position,brake_pressure,gear,acceleration,brake_temperature,tire_pressure_fl,tire_pressure_fr,tire_pressure_rl,tire_pressure_rr\n",
    );
    let ts = decimal_string(data.timestamp);
    out.append(ts.as_str());
    append_centi(&mut out, data.speed);
    append_centi(&mut out, data.rpm);
    append_centi(&mut out, data.engine_temp);
    append_centi(&mut out, data.fuel_level);
    append_centi(&mut out, data.battery_voltage);
    append_centi(&mut out, data.oil_pressure);
    append_centi(&mut out, data.throttle_position);
    append_centi(&mut out, data.brake_pressure);
    out.append(",");
    let g = signed_string(data.gear as i64);
    out.append(g.as_str());
    append_centi(&mut out, data.acceleration);
    append_centi(&mut out, data.brake_temperature);
    append_centi(&mut out, data.tire_pressure_fl);
    append_centi(&mut out, data.tire_pressure_fr);
    append_centi(&mut out, data.tire_pressure_rl);
    append_centi(&mut out, data.tire_pressure_rr);
    out.append("\n");
    out
}

/// The binary unit that a size is shown in: the largest of B, KB, MB, GB
/// that the size reaches.
pub open spec fn size_unit(bytes: nat) -> nat {
    if bytes >= 1073741824 {
        3
    } else if bytes >= 1048576 {
        2
    } else if bytes >= 1024 {
        1
    } else {
        0
    }
}

pub open spec fn unit_bytes(k: nat) -> nat {
    if k == 3 {
        1073741824
    } else if k == 2 {
        1048576
    } else if k == 1 {
        1024
    } else {
        1
    }
}

pub open spec fn unit_name(k: nat) -> Seq<char> {
    if k == 3 {
        "GB"@
    } else if k == 2 {
        "MB"@
    } else if k == 1 {
        "KB"@
    } else {
        "B"@
    }
}

/// `num / den` rounded to the nearest integer, halves to the even neighbour.
pub open spec fn round_half_even(num: nat, den: nat) -> nat {
    let q = num / den;
    let rem = num % den;
    if 2 * rem > den || (2 * rem == den && q % 2 == 1) {
        q + 1
    } else {
        q
    }
}

/// A byte count in its unit with one decimal place, such as "1.5 KB".
pub open spec fn size_text(bytes: nat) -> Seq<char> {
    let k = size_unit(bytes);
    let t = round_half_even(bytes * 10, unit_bytes(k));
    decimal(t / 10) + "."@ + decimal(t % 10) + " "@ + unit_name(k)
}

/// A byte count in binary units with one decimal place.
pub fn format_file_size(bytes: u64) -> (r: String)
    ensures
        r@ == size_text(bytes as nat),
{
    let (unit, den): (&str, u128) = if bytes >= 1073741824 {
        ("GB", 1073741824)
    } else if bytes >= 1048576 {
        ("MB", 1048576)
    } else if bytes >= 1024 {
        ("KB", 1024)
    } else {
        ("B", 1)
    };
    let num: u128 = bytes as u128 * 10;
    let q = num / den;
    let rem = num % den;
    let t: u128 = if 2 * rem > den || (2 * rem == den && q % 2 == 1) {
        q + 1
    } else {
        q
    };
    assert(q * den <= num) by (nonlinear_arith)
        requires
            q == num / den,
            den >= 1,
    ;
    assert(t < 0x1_0000_0000_0000_0000) by (nonlinear_arith)
        requires
            q * den <= num,
            t <= q + 1,
            den >= 1024 || num < 10240,
            den >= 1,
            num <= 10 * 0xffff_ffff_ffff_ffff,
    ;
    let whole = decimal_string((t / 10) as u64);
    let tenth = decimal_string((t % 10) as u64);
    let r = whole.concat(".").concat(tenth.as_str()).concat(" ").concat(unit);
    assert(r@ =~= size_text(bytes as nat));
    r
}

/// Sizes and times that describe the store on disk.
pub struct StorageStats {
    pub main_file_size: u64,
    /// Seconds since the Unix epoch.
    pub main_file_modified: u64,
    pub backup_count: usize,
}

impl Default for StorageStats {
    fn default() -> (r: Self)
        ensures
            r.main_file_size == 0,
            r.main_file_modified == 0,
            r.backup_count == 0,
    {
        StorageStats { main_file_size: 0, main_file_modified: 0, backup_count: 0 }
    }
}

impl StorageStats {
    /// Whether the main file was modified less than `max_age_seconds` before
    /// `now`; a modification time after `now` counts as age zero.
    pub open spec fn recent_at(&self, now: u64, max_age_seconds: u64) -> bool {
        let age: int = if now >= self.main_file_modified {
            now - self.main_file_modified
        } else {
            0
        };
        age < max_age_seconds
    }

    pub fn is_recent_at(&self, now: u64, max_age_seconds: u64) -> (r: bool)
        ensures
            r == self.recent_at(now, max_age_seconds),
    {
        let age = if now >= self.main_file_modified {
            now - self.main_file_modified
        } else {
            0
        };
        age < max_age_seconds
    }

    /// Whether the main file was modified less than `max_age_seconds` ago,
    /// by the current clock.
    pub fn is_recent(&self, max_age_seconds: u64) -> (r: bool)
        ensures
            exists|now: u64| r == self.recent_at(now, max_age_seconds),
    {
        let now = unix_now();
        self.is_recent_at(now, max_age_seconds)
    }
}

} // verus!
