//! The plant's state file: `key=value` lines, one per field. The whole
//! numbers are read and written here; the fractional levels travel as the
//! text they are written with.

use vstd::prelude::*;
use crate::command::chars_eq;
use crate::text::{
    all_digits, is_digit, chars_of, string_of, extend_str, extend_chars, push_decimal, push_signed, decimal, signed_decimal,
    unsigned_value, signed_value, parse_unsigned, parse_signed, law_decimal_round_trip,
    law_signed_round_trip, strip_cr, lines_from, text_lines, lemma_lines_line, lemma_lines_concat,
};

verus! {

/// The fractional fields of the state, stored as written text.
#[derive(Clone, Copy, Debug, PartialEq, Eq, Structural)]
pub enum Level {
    Water,
    Light,
    Health,
    Growth,
    LightLeftHours,
    LightCenterHours,
    LightRightHours,
    DroughtStress,
    WetStress,
}

/// What a state file says: each whole-number field it sets (the last
/// occurrence wins) and every fractional field line, in order.
pub struct Fields {
    pub seed: Option<u64>,
    pub born_at: Option<u64>,
    pub last_tick: Option<u64>,
    pub light_dir: Option<i8>,
    pub prune_left: Option<u32>,
    pub prune_right: Option<u32>,
    pub prune_top: Option<u32>,
    pub levels: Seq<(Level, Seq<char>)>,
}

/// A file that sets nothing.
pub open spec fn no_fields() -> Fields {
    Fields {
        seed: None,
        born_at: None,
        last_tick: None,
        light_dir: None,
        prune_left: None,
        prune_right: None,
        prune_top: None,
        levels: Seq::empty(),
    }
}


/// The index of the first `c` in `s`, or its length when there is none.
pub open spec fn first_index(s: Seq<char>, c: char) -> nat
    decreases s.len(),
{
    if s.len() == 0 {
        0
    } else if s[0] == c {
        0
    } else {
        1 + first_index(s.drop_first(), c)
    }
}

/// The name of a fractional field in the file.
pub open spec fn level_key(l: Level) -> Seq<char> {
    match l {
        Level::Water => "water"@,
        Level::Light => "light"@,
        Level::Health => "health"@,
        Level::Growth => "growth"@,
        Level::LightLeftHours => "light_left_hours"@,
        Level::LightCenterHours => "light_center_hours"@,
        Level::LightRightHours => "light_right_hours"@,
        Level::DroughtStress => "drought_stress"@,
        Level::WetStress => "wet_stress"@,
    }
}

/// An unsigned field's value when it fits below `max`.
pub open spec fn unsigned_field(v: Seq<char>, max: nat) -> Option<nat> {
    match unsigned_value(v) {
        Some(n) => if n <= max {
            Some(n)
        } else {
            None
        },
        None => None,
    }
}

/// The whole-number fields of the state.
#[derive(Clone, Copy, Debug, PartialEq, Eq, Structural)]
pub enum Whole {
    Seed,
    BornAt,
    LastTick,
    LightDir,
    PruneLeft,
    PruneRight,
    PruneTop,
}

/// The name of a whole-number field in the file.
pub open spec fn whole_key(w: Whole) -> Seq<char> {
    match w {
        Whole::Seed => "seed"@,
        Whole::BornAt => "born_at"@,
        Whole::LastTick => "last_tick"@,
        Whole::LightDir => "light_dir"@,
        Whole::PruneLeft => "prune_left"@,
        Whole::PruneRight => "prune_right"@,
        Whole::PruneTop => "prune_top"@,
    }
}

/// The whole-number field a key names, if any.
pub open spec fn whole_named(key: Seq<char>) -> Option<Whole> {
    if key == whole_key(Whole::Seed) {
        Some(Whole::Seed)
    } else if key == whole_key(Whole::BornAt) {
        Some(Whole::BornAt)
    } else if key == whole_key(Whole::LastTick) {
        Some(Whole::LastTick)
    } else if key == whole_key(Whole::LightDir) {
        Some(Whole::LightDir)
    } else if key == whole_key(Whole::PruneLeft) {
        Some(Whole::PruneLeft)
    } else if key == whole_key(Whole::PruneRight) {
        Some(Whole::PruneRight)
    } else if key == whole_key(Whole::PruneTop) {
        Some(Whole::PruneTop)
    } else {
        None
    }
}

/// The fractional field a key names, if any.
pub open spec fn level_named(key: Seq<char>) -> Option<Level> {
    if key == level_key(Level::Water) {
        Some(Level::Water)
    } else if key == level_key(Level::Light) {
        Some(Level::Light)
    } else if key == level_key(Level::Health) {
        Some(Level::Health)
    } else if key == level_key(Level::Growth) {
        Some(Level::Growth)
    } else if key == level_key(Level::LightLeftHours) {
        Some(Level::LightLeftHours)
    } else if key == level_key(Level::LightCenterHours) {
        Some(Level::LightCenterHours)
    } else if key == level_key(Level::LightRightHours) {
        Some(Level::LightRightHours)
    } else if key == level_key(Level::DroughtStress) {
        Some(Level::DroughtStress)
    } else if key == level_key(Level::WetStress) {
        Some(Level::WetStress)
    } else {
        None
    }
}

/// The fields after setting whole-number field `w` from the text `v`, or
/// `None` when `v` does not read as that field's type.
pub open spec fn set_whole(f: Fields, w: Whole, v: Seq<char>) -> Option<Fields> {
    match w {
        Whole::LightDir => match signed_value(v) {
            Some(n) => if -128 <= n <= 127 {
                Some(Fields { light_dir: Some(n as i8), ..f })
            } else {
                None
            },
            None => None,
        },
        Whole::Seed => match unsigned_field(v, u64::MAX as nat) {
            Some(n) => Some(Fields { seed: Some(n as u64), ..f }),
            None => None,
        },
        Whole::BornAt => match unsigned_field(v, u64::MAX as nat) {
            Some(n) => Some(Fields { born_at: Some(n as u64), ..f }),
            None => None,
        },
        Whole::LastTick => match unsigned_field(v, u64::MAX as nat) {
            Some(n) => Some(Fields { last_tick: Some(n as u64), ..f }),
            None => None,
        },
        Whole::PruneLeft => match unsigned_field(v, u32::MAX as nat) {
            Some(n) => Some(Fields { prune_left: Some(n as u32), ..f }),
            None => None,
        },
        Whole::PruneRight => match unsigned_field(v, u32::MAX as nat) {
            Some(n) => Some(Fields { prune_right: Some(n as u32), ..f }),
            None => None,
        },
        Whole::PruneTop => match unsigned_field(v, u32::MAX as nat) {
            Some(n) => Some(Fields { prune_top: Some(n as u32), ..f }),
            None => None,
        },
    }
}

/// The fields after one line: lines without `=` and unknown keys are
/// skipped, a whole-number field that does not read as its type makes the
/// file unreadable (`None`), and a fractional field's text is recorded.
pub open spec fn apply_line(f: Fields, line: Seq<char>) -> Option<Fields> {
    let k = first_index(line, '=');
    if k >= line.len() {
        Some(f)
    } else {
        let key = line.take(k as int);
        let v = line.skip(k as int + 1);
        match whole_named(key) {
            Some(w) => set_whole(f, w, v),
            None => match level_named(key) {
                Some(l) => Some(Fields { levels: f.levels.push((l, v)), ..f }),
                None => Some(f),
            },
        }
    }
}

/// The fields after reading `ls` in order, starting from `f`.
pub open spec fn read_lines(f: Fields, ls: Seq<Seq<char>>) -> Option<Fields>
    decreases ls.len(),
{
    if ls.len() == 0 {
        Some(f)
    } else {
        match apply_line(f, ls[0]) {
            Some(g) => read_lines(g, ls.drop_first()),
            None => None,
        }
    }
}

/// What the state file `s` says, or `None` when a whole-number field in it
/// is unreadable.
pub open spec fn read_state(s: Seq<char>) -> Option<Fields> {
    read_lines(no_fields(), text_lines(s))
}

/// The fields read from a state file.
pub struct StateText {
    pub seed: Option<u64>,
    pub born_at: Option<u64>,
    pub last_tick: Option<u64>,
    pub light_dir: Option<i8>,
    pub prune_left: Option<u32>,
    pub prune_right: Option<u32>,
    pub prune_top: Option<u32>,
    /// Every fractional field line, in file order, with its text.
    pub levels: Vec<(Level, String)>,
}

impl View for StateText {
    type V = Fields;

    open spec fn view(&self) -> Fields {
        Fields {
            seed: self.seed,
            born_at: self.born_at,
            last_tick: self.last_tick,
            light_dir: self.light_dir,
            prune_left: self.prune_left,
            prune_right: self.prune_right,
            prune_top: self.prune_top,
            levels: self.levels@.map_values(|e: (Level, String)| (e.0, e.1@)),
        }
    }
}

/// The characters of `v` from `lo` up to `hi`.
fn copy_range(v: &Vec<char>, lo: usize, hi: usize) -> (r: Vec<char>)
    requires
        lo <= hi <= v.len(),
    ensures
        r@ == v@.subrange(lo as int, hi as int),
{
    let mut r: Vec<char> = Vec::new();
    let mut i: usize = lo;
    while i < hi
        invariant
            lo <= i <= hi <= v.len(),
            r@ == v@.subrange(lo as int, i as int),
        decreases hi - i,
    {
        r.push(v[i]);
        i = i + 1;
    }
    r
}

/// The index of the first `c` in `v`, or its length.
fn find_char(v: &Vec<char>, c: char) -> (k: usize)
    ensures
        k == first_index(v@, c),
{
    let mut i: usize = 0;
    assert(v@.skip(0) == v@);
    while i < v.len() && v[i] != c
        invariant
            i <= v.len(),
            first_index(v@, c) == i + first_index(v@.skip(i as int), c),
        decreases v.len() - i,
    {
        assert(v@.skip(i as int).drop_first() == v@.skip(i + 1));
        i = i + 1;
    }
    i
}

/// Records one fractional field line.
fn push_level(t: &mut StateText, l: Level, v: &Vec<char>)
    ensures
        final(t)@ == (Fields { levels: old(t)@.levels.push((l, v@)), ..old(t)@ }),
{
    let s = string_of(v);
    t.levels.push((l, s));
    assert(final(t)@.levels =~= old(t)@.levels.push((l, v@)));
}

/// Reads one line into `t`; false when it sets a whole-number field to
/// something unreadable.
fn read_line(t: &mut StateText, line: &Vec<char>) -> (ok: bool)
    ensures
        ok ==> apply_line(old(t)@, line@) == Some(final(t)@),
        !ok ==> apply_line(old(t)@, line@) is None,
{
    let k = find_char(line, '=');
    if k >= line.len() {
        return true;
    }
    let key = copy_range(line, 0, k);
    let v = copy_range(line, k + 1, line.len());
    assert(key@ == line@.take(k as int));
    assert(v@ == line@.skip(k as int + 1));
    if chars_eq(&key, "seed") {
        match parse_unsigned(&v, u64::MAX) {
            Some(n) => {
                t.seed = Some(n);
                true
            },
            None => false,
        }
    } else if chars_eq(&key, "born_at") {
        match parse_unsigned(&v, u64::MAX) {
            Some(n) => {
                t.born_at = Some(n);
                true
            },
            None => false,
        }
    } else if chars_eq(&key, "last_tick") {
        match parse_unsigned(&v, u64::MAX) {
            Some(n) => {
                t.last_tick = Some(n);
                true
            },
            None => false,
        }
    } else if chars_eq(&key, "light_dir") {
        match parse_signed(&v, 128, 127) {
            Some(n) => {
                t.light_dir = Some(n as i8);
                true
            },
            None => false,
        }
    } else if chars_eq(&key, "prune_left") {
        match parse_unsigned(&v, u32::MAX as u64) {
            Some(n) => {
                t.prune_left = Some(n as u32);
                true
            },
            None => false,
        }
    } else if chars_eq(&key, "prune_right") {
        match parse_unsigned(&v, u32::MAX as u64) {
            Some(n) => {
                t.prune_right = Some(n as u32);
                true
            },
            None => false,
        }
    } else if chars_eq(&key, "prune_top") {
        match parse_unsigned(&v, u32::MAX as u64) {
            Some(n) => {
                t.prune_top = Some(n as u32);
                true
            },
            None => false,
        }
    } else if chars_eq(&key, "water") {
        push_level(t, Level::Water, &v);
        true
    } else if chars_eq(&key, "light") {
        push_level(t, Level::Light, &v);
        true
    } else if chars_eq(&key, "health") {
        push_level(t, Level::Health, &v);
        true
    } else if chars_eq(&key, "growth") {
        push_level(t, Level::Growth, &v);
        true
    } else if chars_eq(&key, "light_left_hours") {
        push_level(t, Level::LightLeftHours, &v);
        true
    } else if chars_eq(&key, "light_center_hours") {
        push_level(t, Level::LightCenterHours, &v);
        true
    } else if chars_eq(&key, "light_right_hours") {
        push_level(t, Level::LightRightHours, &v);
        true
    } else if chars_eq(&key, "drought_stress") {
        push_level(t, Level::DroughtStress, &v);
        true
    } else if chars_eq(&key, "wet_stress") {
        push_level(t, Level::WetStress, &v);
        true
    } else {
        true
    }
}

/// Reads a state file: every `key=value` line in order. `None` when a
/// whole-number field holds something that does not read as its type.
pub fn parse_state(s: &str) -> (r: Option<StateText>)
    ensures
        match r {
            Some(t) => read_state(s@) == Some(t@),
            None => read_state(s@) is None,
        },
{
    let cs = chars_of(s);
    let mut t = StateText {
        seed: None,
        born_at: None,
        last_tick: None,
        light_dir: None,
        prune_left: None,
        prune_right: None,
        prune_top: None,
        levels: Vec::new(),
    };
    assert(t@.levels =~= Seq::<(Level, Seq<char>)>::empty());
    assert(t@ == no_fields());
    let mut cur: Vec<char> = Vec::new();
    let mut i: usize = 0;
    assert(cs@.skip(0) == cs@);
    while i < cs.len()
        invariant
            i <= cs.len(),
            cs@ == s@,
            read_lines(t@, lines_from(cs@.skip(i as int), cur@)) == read_state(s@),
        decreases cs.len() - i,
    {
        let ghost rest = cs@.skip(i as int);
        assert(rest.drop_first() == cs@.skip(i + 1));
        assert(rest[0] == cs@[i as int]);
        let c = cs[i];
        if c == '\n' {
            if cur.len() > 0 && cur[cur.len() - 1] == '\r' {
                cur.pop();
            }
            let ghost tail = lines_from(cs@.skip(i + 1), Seq::empty());
            let ghost before = t@;
            assert((seq![cur@] + tail)[0] == cur@);
            assert((seq![cur@] + tail).drop_first() == tail);
            let ok = read_line(&mut t, &cur);
            if !ok {
                return None;
            }
            cur = Vec::new();
        } else {
            cur.push(c);
        }
        i = i + 1;
    }
    assert(cs@.skip(cs.len() as int).len() == 0);
    if cur.len() > 0 {
        assert(seq![cur@].drop_first() == Seq::<Seq<char>>::empty());
        let ghost before = t@;
        let ok = read_line(&mut t, &cur);
        if !ok {
            return None;
        }
        assert(read_lines(t@, Seq::<Seq<char>>::empty()) == Some(t@));
        assert(read_lines(before, seq![cur@]) == read_lines(t@, Seq::<Seq<char>>::empty()));
    } else {
        assert(lines_from(Seq::<char>::empty(), cur@) == Seq::<Seq<char>>::empty());
    }
    Some(t)
}

/// Everything a state file records, with the fractional levels already
/// written as text.
pub struct StateRecord {
    pub seed: u64,
    pub born_at: u64,
    pub last_tick: u64,
    pub water: String,
    pub light: String,
    pub health: String,
    pub growth: String,
    pub light_dir: i8,
    pub prune_left: u32,
    pub prune_right: u32,
    pub prune_top: u32,
    pub light_left_hours: String,
    pub light_center_hours: String,
    pub light_right_hours: String,
    pub drought_stress: String,
    pub wet_stress: String,
}

/// One `key=value` line.
pub open spec fn kv(key: Seq<char>, v: Seq<char>) -> Seq<char> {
    key + "="@ + v + "\n"@
}

/// The state file for `r`: one line per field, whole numbers in decimal.
pub open spec fn record_text(r: StateRecord) -> Seq<char> {
    kv("seed"@, decimal(r.seed as nat))
        + kv("born_at"@, decimal(r.born_at as nat))
        + kv("last_tick"@, decimal(r.last_tick as nat))
        + kv("water"@, r.water@)
        + kv("light"@, r.light@)
        + kv("health"@, r.health@)
        + kv("growth"@, r.growth@)
        + kv("light_dir"@, signed_decimal(r.light_dir as int))
        + kv("prune_left"@, decimal(r.prune_left as nat))
        + kv("prune_right"@, decimal(r.prune_right as nat))
        + kv("prune_top"@, decimal(r.prune_top as nat))
        + kv("light_left_hours"@, r.light_left_hours@)
        + kv("light_center_hours"@, r.light_center_hours@)
        + kv("light_right_hours"@, r.light_right_hours@)
        + kv("drought_stress"@, r.drought_stress@)
        + kv("wet_stress"@, r.wet_stress@)
}

/// Appends one `key=` prefix.
fn push_key(out: &mut Vec<char>, key: &str)
    ensures
        final(out)@ == old(out)@ + key@ + "="@,
{
    extend_str(out, key);
    extend_str(out, "=");
}

/// Appends one line ending.
fn push_newline(out: &mut Vec<char>)
    ensures
        final(out)@ == old(out)@ + "\n"@,
{
    extend_str(out, "\n");
}

/// Appends a whole-number line.
fn push_unsigned_line(out: &mut Vec<char>, key: &str, n: u64)
    ensures
        final(out)@ == old(out)@ + kv(key@, decimal(n as nat)),
{
    push_key(out, key);
    push_decimal(out, n);
    push_newline(out);
    assert(final(out)@ =~= old(out)@ + kv(key@, decimal(n as nat)));
}

/// Appends a signed whole-number line.
fn push_signed_line(out: &mut Vec<char>, key: &str, n: i64)
    ensures
        final(out)@ == old(out)@ + kv(key@, signed_decimal(n as int)),
{
    push_key(out, key);
    push_signed(out, n);
    push_newline(out);
    assert(final(out)@ =~= old(out)@ + kv(key@, signed_decimal(n as int)));
}

/// Appends a text line.
fn push_text_line(out: &mut Vec<char>, key: &str, v: &String)
    ensures
        final(out)@ == old(out)@ + kv(key@, v@),
{
    push_key(out, key);
    extend_str(out, v.as_str());
    push_newline(out);
    assert(final(out)@ =~= old(out)@ + kv(key@, v@));
}

/// Writes the state file for `r`.
pub fn serialize_state(r: &StateRecord) -> (s: String)
    ensures
        s@ == record_text(*r),
{
    let mut out: Vec<char> = Vec::new();
    push_unsigned_line(&mut out, "seed", r.seed);
    push_unsigned_line(&mut out, "born_at", r.born_at);
    push_unsigned_line(&mut out, "last_tick", r.last_tick);
    push_text_line(&mut out, "water", &r.water);
    push_text_line(&mut out, "light", &r.light);
    push_text_line(&mut out, "health", &r.health);
    push_text_line(&mut out, "growth", &r.growth);
    push_signed_line(&mut out, "light_dir", r.light_dir as i64);
    push_unsigned_line(&mut out, "prune_left", r.prune_left as u64);
    push_unsigned_line(&mut out, "prune_right", r.prune_right as u64);
    push_unsigned_line(&mut out, "prune_top", r.prune_top as u64);
    push_text_line(&mut out, "light_left_hours", &r.light_left_hours);
    push_text_line(&mut out, "light_center_hours", &r.light_center_hours);
    push_text_line(&mut out, "light_right_hours", &r.light_right_hours);
    push_text_line(&mut out, "drought_stress", &r.drought_stress);
    push_text_line(&mut out, "wet_stress", &r.wet_stress);
    string_of(&out)
}

/// Whether a level's text survives a line of the file unchanged: no line
/// break in it and no carriage return at its end.
pub open spec fn clean_text(v: Seq<char>) -> bool {
    &&& !v.contains('\n')
    &&& !(v.len() > 0 && v.last() == '\r')
}

/// Reading two runs of lines reads the first, then the second.
proof fn lemma_read_append(f: Fields, a: Seq<Seq<char>>, b: Seq<Seq<char>>)
    ensures
        read_lines(f, a + b) == (match read_lines(f, a) {
            Some(g) => read_lines(g, b),
            None => None,
        }),
    decreases a.len(),
{
    if a.len() == 0 {
        assert(a + b == b);
    } else {
        assert((a + b)[0] == a[0]);
        assert((a + b).drop_first() == a.drop_first() + b);
        match apply_line(f, a[0]) {
            Some(g) => lemma_read_append(g, a.drop_first(), b),
            None => {},
        }
    }
}

/// In `key=value`, the first `=` is the one after the key.
proof fn lemma_split_kv(key: Seq<char>, v: Seq<char>)
    requires
        !key.contains('='),
    ensures
        first_index(key + seq!['='] + v, '=') == key.len(),
        (key + seq!['='] + v).take(key.len() as int) == key,
        (key + seq!['='] + v).skip(key.len() as int + 1) == v,
    decreases key.len(),
{
    let l = key + seq!['='] + v;
    if key.len() == 0 {
        assert(l[0] == '=');
    } else {
        assert(l[0] == key[0]);
        assert(l.drop_first() == key.drop_first() + seq!['='] + v);
        assert(!key.drop_first().contains('=')) by {
            if key.drop_first().contains('=') {
                let k = choose|k: int| 0 <= k < key.drop_first().len() && key.drop_first()[k] == '=';
                assert(key[k + 1] == '=');
            }
        }
        lemma_split_kv(key.drop_first(), v);
    }
    assert(l.take(key.len() as int) == key);
    assert(l.skip(key.len() as int + 1) == v);
}

/// Appending one `key=value` line to a file of whole lines reads that line
/// after the others.
proof fn lemma_read_kv(prefix: Seq<char>, key: Seq<char>, v: Seq<char>)
    requires
        prefix.len() == 0 || prefix.last() == '\n',
        !key.contains('='),
        !key.contains('\n'),
        key.len() > 0,
        clean_text(v),
    ensures
        read_state(prefix + kv(key, v)) == (match read_state(prefix) {
            Some(g) => apply_line(g, key + seq!['='] + v),
            None => None,
        }),
        first_index(key + seq!['='] + v, '=') == key.len(),
        (key + seq!['='] + v).take(key.len() as int) == key,
        (key + seq!['='] + v).skip(key.len() as int + 1) == v,
        (prefix + kv(key, v)).len() > 0,
        (prefix + kv(key, v)).last() == '\n',
{
    lemma_split_kv(key, v);
    reveal_strlit("=");
    reveal_strlit("\n");
    assert("="@ == seq!['=']);
    assert("\n"@ == seq!['\n']);
    let l = key + seq!['='] + v;
    assert(kv(key, v) == l + seq!['\n']);
    assert(!l.contains('\n')) by {
        if l.contains('\n') {
            let k = choose|k: int| 0 <= k < l.len() && l[k] == '\n';
            if k < key.len() {
                assert(key[k] == '\n');
            } else if k > key.len() {
                assert(v[k - key.len() - 1] == '\n');
            }
        }
    }
    lemma_lines_line(l, Seq::empty());
    assert(Seq::<char>::empty() + l == l);
    assert(strip_cr(l) == l) by {
        if v.len() > 0 {
            assert(l.last() == v.last());
        } else {
            assert(l.last() == '=');
        }
    }
    let ls = seq![l];
    if prefix.len() == 0 {
        assert(prefix + kv(key, v) == kv(key, v));
        assert(text_lines(prefix) == Seq::<Seq<char>>::empty());
        assert(Seq::<Seq<char>>::empty() + ls == ls);
        lemma_read_append(no_fields(), Seq::empty(), ls);
    } else {
        lemma_lines_concat(prefix, kv(key, v), Seq::empty());
        lemma_read_append(no_fields(), text_lines(prefix), ls);
    }
    match read_state(prefix) {
        Some(g) => {
            assert(ls.drop_first() == Seq::<Seq<char>>::empty());
            assert(read_lines(g, ls) == (match apply_line(g, l) {
                Some(h) => read_lines(h, Seq::empty()),
                None => None,
            }));
        },
        None => {},
    }
}

/// A numeral is clean text.
proof fn lemma_digits_clean(s: Seq<char>)
    requires
        all_digits(s),
    ensures
        clean_text(s),
{
    if s.contains('\n') {
        let k = choose|k: int| 0 <= k < s.len() && s[k] == '\n';
        assert(is_digit(s[k]));
    }
    assert(is_digit(s[s.len() - 1]));
}

/// A signed numeral is clean text.
proof fn lemma_signed_clean(n: int)
    ensures
        clean_text(signed_decimal(n)),
{
    if n < 0 {
        law_decimal_round_trip((-n) as nat);
        let d = decimal((-n) as nat);
        lemma_digits_clean(d);
        let s = signed_decimal(n);
        if s.contains('\n') {
            let k = choose|k: int| 0 <= k < s.len() && s[k] == '\n';
            assert(k > 0);
            assert(s[k] == d[k - 1]);
        }
        assert(s.last() == d.last());
    } else {
        law_decimal_round_trip(n as nat);
        lemma_digits_clean(decimal(n as nat));
    }
}

/// How reading tells the field names apart.
proof fn lemma_field_names()
    ensures
        whole_named(whole_key(Whole::Seed)) == Some(Whole::Seed),
        whole_named(whole_key(Whole::BornAt)) == Some(Whole::BornAt),
        whole_named(whole_key(Whole::LastTick)) == Some(Whole::LastTick),
        whole_named(whole_key(Whole::LightDir)) == Some(Whole::LightDir),
        whole_named(whole_key(Whole::PruneLeft)) == Some(Whole::PruneLeft),
        whole_named(whole_key(Whole::PruneRight)) == Some(Whole::PruneRight),
        whole_named(whole_key(Whole::PruneTop)) == Some(Whole::PruneTop),
        whole_named(level_key(Level::Water)) is None,
        level_named(level_key(Level::Water)) == Some(Level::Water),
        whole_named(level_key(Level::Light)) is None,
        level_named(level_key(Level::Light)) == Some(Level::Light),
        whole_named(level_key(Level::Health)) is None,
        level_named(level_key(Level::Health)) == Some(Level::Health),
        whole_named(level_key(Level::Growth)) is None,
        level_named(level_key(Level::Growth)) == Some(Level::Growth),
        whole_named(level_key(Level::LightLeftHours)) is None,
        level_named(level_key(Level::LightLeftHours)) == Some(Level::LightLeftHours),
        whole_named(level_key(Level::LightCenterHours)) is None,
        level_named(level_key(Level::LightCenterHours)) == Some(Level::LightCenterHours),
        whole_named(level_key(Level::LightRightHours)) is None,
        level_named(level_key(Level::LightRightHours)) == Some(Level::LightRightHours),
        whole_named(level_key(Level::DroughtStress)) is None,
        level_named(level_key(Level::DroughtStress)) == Some(Level::DroughtStress),
        whole_named(level_key(Level::WetStress)) is None,
        level_named(level_key(Level::WetStress)) == Some(Level::WetStress),
        !"seed"@.contains('='),
        !"seed"@.contains('\n'),
        "seed"@.len() > 0,
        !"born_at"@.contains('='),
        !"born_at"@.contains('\n'),
        "born_at"@.len() > 0,
        !"last_tick"@.contains('='),
        !"last_tick"@.contains('\n'),
        "last_tick"@.len() > 0,
        !"water"@.contains('='),
        !"water"@.contains('\n'),
        "water"@.len() > 0,
        !"light"@.contains('='),
        !"light"@.contains('\n'),
        "light"@.len() > 0,
        !"health"@.contains('='),
        !"health"@.contains('\n'),
        "health"@.len() > 0,
        !"growth"@.contains('='),
        !"growth"@.contains('\n'),
        "growth"@.len() > 0,
        !"light_dir"@.contains('='),
        !"light_dir"@.contains('\n'),
        "light_dir"@.len() > 0,
        !"prune_left"@.contains('='),
        !"prune_left"@.contains('\n'),
        "prune_left"@.len() > 0,
        !"prune_right"@.contains('='),
        !"prune_right"@.contains('\n'),
        "prune_right"@.len() > 0,
        !"prune_top"@.contains('='),
        !"prune_top"@.contains('\n'),
        "prune_top"@.len() > 0,
        !"light_left_hours"@.contains('='),
        !"light_left_hours"@.contains('\n'),
        "light_left_hours"@.len() > 0,
        !"light_center_hours"@.contains('='),
        !"light_center_hours"@.contains('\n'),
        "light_center_hours"@.len() > 0,
        !"light_right_hours"@.contains('='),
        !"light_right_hours"@.contains('\n'),
        "light_right_hours"@.len() > 0,
        !"drought_stress"@.contains('='),
        !"drought_stress"@.contains('\n'),
        "drought_stress"@.len() > 0,
        !"wet_stress"@.contains('='),
        !"wet_stress"@.contains('\n'),
        "wet_stress"@.len() > 0,
{
    reveal_strlit("seed");
    reveal_strlit("born_at");
    reveal_strlit("last_tick");
    reveal_strlit("water");
    reveal_strlit("light");
    reveal_strlit("health");
    reveal_strlit("growth");
    reveal_strlit("light_dir");
    reveal_strlit("prune_left");
    reveal_strlit("prune_right");
    reveal_strlit("prune_top");
    reveal_strlit("light_left_hours");
    reveal_strlit("light_center_hours");
    reveal_strlit("light_right_hours");
    reveal_strlit("drought_stress");
    reveal_strlit("wet_stress");
    assert("light_dir"@[1] != "last_tick"@[1]);
    assert("prune_top"@[0] != "last_tick"@[0]);
    assert("prune_top"@[0] != "light_dir"@[0]);
    assert("light"@[0] != "water"@[0]);
    assert("growth"@[0] != "health"@[0]);
    assert("wet_stress"@[0] != "prune_left"@[0]);
}

/// Reading one more whole-number line sets that field.
proof fn lemma_step_whole(prefix: Seq<char>, g: Fields, w: Whole, v: Seq<char>)
    requires
        read_state(prefix) == Some(g),
        prefix.len() == 0 || prefix.last() == '\n',
        clean_text(v),
    ensures
        read_state(prefix + kv(whole_key(w), v)) == set_whole(g, w, v),
        (prefix + kv(whole_key(w), v)).len() > 0,
        (prefix + kv(whole_key(w), v)).last() == '\n',
{
    lemma_field_names();
    lemma_read_kv(prefix, whole_key(w), v);
}

/// Reading one more level line records its text.
proof fn lemma_step_level(prefix: Seq<char>, g: Fields, l: Level, v: Seq<char>)
    requires
        read_state(prefix) == Some(g),
        prefix.len() == 0 || prefix.last() == '\n',
        clean_text(v),
    ensures
        read_state(prefix + kv(level_key(l), v)) == Some(Fields { levels: g.levels.push((l, v)), ..g }),
        (prefix + kv(level_key(l), v)).len() > 0,
        (prefix + kv(level_key(l), v)).last() == '\n',
{
    lemma_field_names();
    lemma_read_kv(prefix, level_key(l), v);
}

/// Writing a state and reading it back gives every whole-number field and
/// every level's text, in the order written.
#[verifier::rlimit(40)]
pub proof fn law_state_round_trip(r: StateRecord)
    requires
        clean_text(r.water@),
        clean_text(r.light@),
        clean_text(r.health@),
        clean_text(r.growth@),
        clean_text(r.light_left_hours@),
        clean_text(r.light_center_hours@),
        clean_text(r.light_right_hours@),
        clean_text(r.drought_stress@),
        clean_text(r.wet_stress@),
    ensures
        read_state(record_text(r)) == Some(
            Fields {
                seed: Some(r.seed),
                born_at: Some(r.born_at),
                last_tick: Some(r.last_tick),
                light_dir: Some(r.light_dir),
                prune_left: Some(r.prune_left),
                prune_right: Some(r.prune_right),
                prune_top: Some(r.prune_top),
                levels: seq![
            (Level::Water, r.water@),
            (Level::Light, r.light@),
            (Level::Health, r.health@),
            (Level::Growth, r.growth@),
            (Level::LightLeftHours, r.light_left_hours@),
            (Level::LightCenterHours, r.light_center_hours@),
            (Level::LightRightHours, r.light_right_hours@),
            (Level::DroughtStress, r.drought_stress@),
            (Level::WetStress, r.wet_stress@)
                ],
            },
        ),
{
    law_decimal_round_trip(r.seed as nat);
    law_decimal_round_trip(r.born_at as nat);
    law_decimal_round_trip(r.last_tick as nat);
    law_decimal_round_trip(r.prune_left as nat);
    law_decimal_round_trip(r.prune_right as nat);
    law_decimal_round_trip(r.prune_top as nat);
    law_signed_round_trip(r.light_dir as int);
    lemma_digits_clean(decimal(r.seed as nat));
    lemma_digits_clean(decimal(r.born_at as nat));
    lemma_digits_clean(decimal(r.last_tick as nat));
    lemma_digits_clean(decimal(r.prune_left as nat));
    lemma_digits_clean(decimal(r.prune_right as nat));
    lemma_digits_clean(decimal(r.prune_top as nat));
    lemma_signed_clean(r.light_dir as int);
    let f = no_fields();
    assert(read_state(Seq::empty()) == Some(f)) by {
        assert(text_lines(Seq::<char>::empty()) == Seq::<Seq<char>>::empty());
    }
    let t0 = kv(whole_key(Whole::Seed), decimal(r.seed as nat));
    let f0 = Fields { seed: Some(r.seed), ..f };
    assert(read_state(t0) == Some(f0) && t0.len() > 0 && t0.last() == '\n') by {
        lemma_step_whole(Seq::<char>::empty(), f, Whole::Seed, decimal(r.seed as nat));
        assert(Seq::<char>::empty() + t0 == t0);
    }
    let t1 = t0 + kv(whole_key(Whole::BornAt), decimal(r.born_at as nat));
    let f1 = Fields { born_at: Some(r.born_at), ..f0 };
    assert(read_state(t1) == Some(f1) && t1.len() > 0 && t1.last() == '\n') by {
        lemma_step_whole(t0, f0, Whole::BornAt, decimal(r.born_at as nat));
    }
    let t2 = t1 + kv(whole_key(Whole::LastTick), decimal(r.last_tick as nat));
    let f2 = Fields { last_tick: Some(r.last_tick), ..f1 };
    assert(read_state(t2) == Some(f2) && t2.len() > 0 && t2.last() == '\n') by {
        lemma_step_whole(t1, f1, Whole::LastTick, decimal(r.last_tick as nat));
    }
    let t3 = t2 + kv(level_key(Level::Water), r.water@);
    let f3 = Fields { levels: f2.levels.push((Level::Water, r.water@)), ..f2 };
    assert(read_state(t3) == Some(f3) && t3.len() > 0 && t3.last() == '\n') by {
        lemma_step_level(t2, f2, Level::Water, r.water@);
    }
    let t4 = t3 + kv(level_key(Level::Light), r.light@);
    let f4 = Fields { levels: f3.levels.push((Level::Light, r.light@)), ..f3 };
    assert(read_state(t4) == Some(f4) && t4.len() > 0 && t4.last() == '\n') by {
        lemma_step_level(t3, f3, Level::Light, r.light@);
    }
    let t5 = t4 + kv(level_key(Level::Health), r.health@);
    let f5 = Fields { levels: f4.levels.push((Level::Health, r.health@)), ..f4 };
    assert(read_state(t5) == Some(f5) && t5.len() > 0 && t5.last() == '\n') by {
        lemma_step_level(t4, f4, Level::Health, r.health@);
    }
    let t6 = t5 + kv(level_key(Level::Growth), r.growth@);
    let f6 = Fields { levels: f5.levels.push((Level::Growth, r.growth@)), ..f5 };
    assert(read_state(t6) == Some(f6) && t6.len() > 0 && t6.last() == '\n') by {
        lemma_step_level(t5, f5, Level::Growth, r.growth@);
    }
    let t7 = t6 + kv(whole_key(Whole::LightDir), signed_decimal(r.light_dir as int));
    let f7 = Fields { light_dir: Some(r.light_dir), ..f6 };
    assert(read_state(t7) == Some(f7) && t7.len() > 0 && t7.last() == '\n') by {
        lemma_step_whole(t6, f6, Whole::LightDir, signed_decimal(r.light_dir as int));
    }
    let t8 = t7 + kv(whole_key(Whole::PruneLeft), decimal(r.prune_left as nat));
    let f8 = Fields { prune_left: Some(r.prune_left), ..f7 };
    assert(read_state(t8) == Some(f8) && t8.len() > 0 && t8.last() == '\n') by {
        lemma_step_whole(t7, f7, Whole::PruneLeft, decimal(r.prune_left as nat));
    }
    let t9 = t8 + kv(whole_key(Whole::PruneRight), decimal(r.prune_right as nat));
    let f9 = Fields { prune_right: Some(r.prune_right), ..f8 };
    assert(read_state(t9) == Some(f9) && t9.len() > 0 && t9.last() == '\n') by {
        lemma_step_whole(t8, f8, Whole::PruneRight, decimal(r.prune_right as nat));
    }
    let t10 = t9 + kv(whole_key(Whole::PruneTop), decimal(r.prune_top as nat));
    let f10 = Fields { prune_top: Some(r.prune_top), ..f9 };
    assert(read_state(t10) == Some(f10) && t10.len() > 0 && t10.last() == '\n') by {
        lemma_step_whole(t9, f9, Whole::PruneTop, decimal(r.prune_top as nat));
    }
    let t11 = t10 + kv(level_key(Level::LightLeftHours), r.light_left_hours@);
    let f11 = Fields { levels: f10.levels.push((Level::LightLeftHours, r.light_left_hours@)), ..f10 };
    assert(read_state(t11) == Some(f11) && t11.len() > 0 && t11.last() == '\n') by {
        lemma_step_level(t10, f10, Level::LightLeftHours, r.light_left_hours@);
    }
    let t12 = t11 + kv(level_key(Level::LightCenterHours), r.light_center_hours@);
    let f12 = Fields { levels: f11.levels.push((Level::LightCenterHours, r.light_center_hours@)), ..f11 };
    assert(read_state(t12) == Some(f12) && t12.len() > 0 && t12.last() == '\n') by {
        lemma_step_level(t11, f11, Level::LightCenterHours, r.light_center_hours@);
    }
    let t13 = t12 + kv(level_key(Level::LightRightHours), r.light_right_hours@);
    let f13 = Fields { levels: f12.levels.push((Level::LightRightHours, r.light_right_hours@)), ..f12 };
    assert(read_state(t13) == Some(f13) && t13.len() > 0 && t13.last() == '\n') by {
        lemma_step_level(t12, f12, Level::LightRightHours, r.light_right_hours@);
    }
    let t14 = t13 + kv(level_key(Level::DroughtStress), r.drought_stress@);
    let f14 = Fields { levels: f13.levels.push((Level::DroughtStress, r.drought_stress@)), ..f13 };
    assert(read_state(t14) == Some(f14) && t14.len() > 0 && t14.last() == '\n') by {
        lemma_step_level(t13, f13, Level::DroughtStress, r.drought_stress@);
    }
    let t15 = t14 + kv(level_key(Level::WetStress), r.wet_stress@);
    let f15 = Fields { levels: f14.levels.push((Level::WetStress, r.wet_stress@)), ..f14 };
    assert(read_state(t15) == Some(f15) && t15.len() > 0 && t15.last() == '\n') by {
        lemma_step_level(t14, f14, Level::WetStress, r.wet_stress@);
    }
    assert(t15 =~= record_text(r));
    assert(f15.levels =~= seq![(Level::Water, r.water@), (Level::Light, r.light@), (Level::Health, r.health@), (Level::Growth, r.growth@), (Level::LightLeftHours, r.light_left_hours@), (Level::LightCenterHours, r.light_center_hours@), (Level::LightRightHours, r.light_right_hours@), (Level::DroughtStress, r.drought_stress@), (Level::WetStress, r.wet_stress@)]);
}

} // verus!
