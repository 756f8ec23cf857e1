//! Default value registry.
use vstd::prelude::*;

use crate::canvas::types::{RgbaColor, Value, ValueV};
use crate::json::{Json, JsonV, str_at, u64_at, views};
use crate::strs::{all_ascii_chars, chars_of, lower, string_of, unicode_lower, unicode_to_lowercase};
use crate::table::{
    Table, entries_map, keys_unique, lemma_entries_map_dom, lemma_entries_map_finite, lemma_unique_entry_value,
    lemma_unique_len,
};

verus! {

/// The map a list of `(slot, guid)` pairs stands for: the last pair of a
/// slot wins.
pub open spec fn slots_map(s: Seq<((u32, u32), String)>) -> Map<(u32, u32), Seq<char>>
    decreases s.len(),
{
    if s.len() == 0 {
        Map::empty()
    } else {
        slots_map(s.drop_last()).insert(s.last().0, s.last().1@)
    }
}

/// A `screenStates[]` entry: its name and backlight colour, when it has a
/// string `name` and integer `r`, `g`, `b` (and optionally `a`, else 255)
/// in `color`; components are truncated to 8 bits.
pub open spec fn screen_state_entry(state: JsonV) -> Option<(Seq<char>, RgbaColor)> {
    match str_at(state, "name"@) {
        None => None,
        Some(name) => {
            let color = match state.field("color"@) {
                Some(c) => c,
                None => JsonV::Null,
            };
            match (u64_at(color, "r"@), u64_at(color, "g"@), u64_at(color, "b"@)) {
                (Some(r), Some(g), Some(b)) => {
                    let a = match u64_at(color, "a"@) {
                        Some(a) => a,
                        None => 255u64,
                    };
                    Some((name, RgbaColor { r: r as u8, g: g as u8, b: b as u8, a: a as u8 }))
                },
                _ => None,
            }
        },
    }
}

/// Screen colours after ingesting the first `k` states into `m`.
pub open spec fn screen_states_upto(m: Map<Seq<char>, RgbaColor>, states: Seq<JsonV>, k: int) -> Map<
    Seq<char>,
    RgbaColor,
>
    decreases k,
{
    if k <= 0 {
        m
    } else {
        let prev = screen_states_upto(m, states, k - 1);
        match screen_state_entry(states[k - 1]) {
            Some((n, c)) => prev.insert(n, c),
            None => prev,
        }
    }
}

/// Screen colours after ingesting a `screenStates[]` value; anything but an
/// array changes nothing.
pub open spec fn spec_ingest_screen_states(m: Map<Seq<char>, RgbaColor>, json: JsonV) -> Map<
    Seq<char>,
    RgbaColor,
> {
    match json {
        JsonV::Array(a) => screen_states_upto(m, a, a.len() as int),
        _ => m,
    }
}

/// Localization after overlaying the first `k` entries: a key whose current
/// value is the empty sentinel keeps it, any other key takes the new value.
pub open spec fn merge_upto(loc: Map<Seq<char>, Seq<char>>, entries: Seq<(Seq<char>, Seq<char>)>, k: int) -> Map<
    Seq<char>,
    Seq<char>,
>
    decreases k,
{
    if k <= 0 {
        loc
    } else {
        let m = merge_upto(loc, entries, k - 1);
        let (key, value) = entries[k - 1];
        if m.contains_key(key) && m[key].len() == 0 {
            m
        } else {
            m.insert(key, value)
        }
    }
}

/// The localization table after merging `map`: a key of `map` takes its
/// value unless the table holds the empty sentinel for it, which stays;
/// every other key keeps its value, or stays absent.
pub open spec fn merge_localized(loc: Map<Seq<char>, Seq<char>>, map: Map<Seq<char>, Seq<char>>) -> Map<
    Seq<char>,
    Seq<char>,
> {
    Map::new(
        |k: Seq<char>| loc.contains_key(k) || map.contains_key(k),
        |k: Seq<char>| if map.contains_key(k) && !(loc.contains_key(k) && loc[k].len() == 0) {
            map[k]
        } else {
            loc[k]
        },
    )
}

pub open spec fn string_entries(s: Seq<(Vec<char>, String)>) -> Seq<(Seq<char>, Seq<char>)> {
    s.map_values(|e: (Vec<char>, String)| (e.0@, e.1@))
}

/// A localization key as looked up: without a leading `@`.
pub open spec fn bare_key(key: Seq<char>) -> Seq<char> {
    if key.len() > 0 && key[0] == '@' {
        key.drop_first()
    } else {
        key
    }
}

/// The binding-path defaults of the well-known contract table.
pub open spec fn well_known_paths() -> Map<Seq<char>, ValueV> {
    Map::empty().insert("/vehicle/targetname"@, ValueV::Str("NO TARGET"@)).insert(
        "/vehicle/target/distance"@,
        ValueV::Str("0.0km"@),
    ).insert("/vehicle/target/bearing"@, ValueV::Str("0°"@)).insert(
        "/ship/hp/current"@,
        ValueV::Str("MAX"@),
    ).insert("/ship/hp/max"@, ValueV::Str("MAX"@)).insert(
        "/seatdashboard/powerstate"@,
        ValueV::Str("OFFLINE"@),
    ).insert("/seatdashboard/powercurrent"@, ValueV::Int(2)).insert(
        "/seatdashboard/powermax"@,
        ValueV::Int(16),
    ).insert("/vehicle/gungroup"@, ValueV::Str("(ALL)"@)).insert(
        "CloneLocationInfo/MedicalTier"@,
        ValueV::Int(2),
    ).insert("Bed/MedBed/MedBedStatus/MedicalTier"@, ValueV::Int(2)).insert(
        "Bed/MedBed/MedBedStatus/containerOccupancy"@,
        ValueV::Int(200),
    ).insert("Bed/MedBed/MedBedStatus/containerCapacity"@, ValueV::Int(200)).insert(
        "CloneLocationInfo/CurrentLocation/LocationName"@,
        ValueV::Str("Drake Clipper"@),
    ).insert("state.BaseScreens.Heal"@, ValueV::Bool(false)).insert(
        "state.BaseScreens.PerformingSurgery"@,
        ValueV::Bool(false),
    ).insert("state.BaseScreens.ConfirmMoreInjuries"@, ValueV::Bool(false)).insert(
        "state.BaseScreens.ConfirmNoInjuries"@,
        ValueV::Bool(false),
    ).insert("state.BaseScreens.CloneMe"@, ValueV::Bool(false)).insert(
        "state.BaseScreens.Admin"@,
        ValueV::Bool(false),
    ).insert("Popup/IsActive"@, ValueV::Bool(true))
}

/// The built-in English translations of the localization keys the MFD
/// canvases use; two keys are empty sentinels.
pub open spec fn well_known_localization() -> Map<Seq<char>, Seq<char>> {
    Map::empty().insert("hud_notarget"@, "NO TARGET"@).insert("dfm_ui_target"@, "TARGET"@).insert(
        "hud_label_velocity"@,
        "VELOCITY"@,
    ).insert("scan_data_faction"@, "FACTION"@).insert("ui_nodata"@, "—"@).insert(
        "innerthought_hail"@,
        "HAIL"@,
    ).insert("panel_call"@, "CALL"@).insert("hud_gimbalmode"@, "GIMBAL MODE"@).insert(
        "hud_activegroup"@,
        "ACTIVE GROUP"@,
    ).insert("hud_pwr"@, "PWR"@).insert("flighthud_label_wpn"@, "WPN"@).insert("hud_thr"@, "THR"@).insert(
        "hud_shld"@,
        "SHLD"@,
    ).insert("hud_cool"@, "COOL"@).insert("hud_selfstatus"@, "SELF STATUS"@).insert(
        "hud_targetstatus"@,
        "TARGET STATUS"@,
    ).insert("hud_label_ir"@, "IR"@).insert("hud_label_em"@, "EM"@).insert("hud_label_cs"@, "CS"@).insert(
        "hud_ir"@,
        "IR:"@,
    ).insert("hud_em"@, "EM:"@).insert("hud_cs"@, "CS:"@).insert(
        "engineering_ui_item_output"@,
        "OUTPUT"@,
    ).insert("item_typebattery"@, "BATTERY"@).insert("hud_mode"@, "MODE"@).insert(
        "hud_label_max"@,
        "MAX"@,
    ).insert("hud_label_weapon"@, "Weapon"@).insert("rn_offline"@, "OFFLINE"@).insert(
        "rn_celsiussymbol"@,
        "°C"@,
    ).insert("loc_empty"@, Seq::empty()).insert("loc_placeholder"@, Seq::empty())
}

/// Default values used to populate state-bound widgets when no live game
/// data is available.
#[derive(Debug)]
pub struct DefaultValueRegistry {
    paths: Table<Value>,
    mfd_slot_defaults: Vec<((u32, u32), String)>,
    screen_state_colors: Table<RgbaColor>,
    localization: Table<String>,
}

fn owned(s: &str) -> (r: String)
    ensures
        r@ == s@,
{
    string_of(chars_of(s).as_slice())
}

impl DefaultValueRegistry {
    /// Binding path → default value.
    pub closed spec fn path_defaults(&self) -> Map<Seq<char>, Value> {
        self.paths@
    }

    /// `(view, slot)` → content-canvas GUID.
    pub closed spec fn mfd_slots(&self) -> Map<(u32, u32), Seq<char>> {
        slots_map(self.mfd_slot_defaults@)
    }

    /// Screen state name → backlight colour.
    pub closed spec fn screen_colors(&self) -> Map<Seq<char>, RgbaColor> {
        self.screen_state_colors@
    }

    /// Lower-case localization key (without `@`) → display string.
    pub closed spec fn localization_table(&self) -> Map<Seq<char>, Seq<char>> {
        self.localization@.map_values(|s: String| s@)
    }

    /// An empty registry.
    pub fn new() -> (r: Self)
        ensures
            r.path_defaults() == Map::<Seq<char>, Value>::empty(),
            r.mfd_slots() == Map::<(u32, u32), Seq<char>>::empty(),
            r.screen_colors() == Map::<Seq<char>, RgbaColor>::empty(),
            r.localization_table() == Map::<Seq<char>, Seq<char>>::empty(),
    {
        let r = DefaultValueRegistry {
            paths: Table::new(),
            mfd_slot_defaults: Vec::new(),
            screen_state_colors: Table::new(),
            localization: Table::new(),
        };
        assert(r.localization_table() =~= Map::<Seq<char>, Seq<char>>::empty());
        r
    }

    /// Insert or overwrite a binding-path default.
    pub fn insert_path(&mut self, path: &str, default: Value)
        ensures
            final(self).path_defaults() == old(self).path_defaults().insert(path@, default),
            final(self).mfd_slots() == old(self).mfd_slots(),
            final(self).screen_colors() == old(self).screen_colors(),
            final(self).localization_table() == old(self).localization_table(),
    {
        let mut paths: Table<Value> = Table::new();
        std::mem::swap(&mut paths, &mut self.paths);
        paths.insert(chars_of(path), default);
        self.paths = paths;
    }

    /// Look up a binding-path default.
    pub fn lookup_path(&self, path: &str) -> (r: Option<&Value>)
        ensures
            match r {
                Some(v) => self.path_defaults().contains_key(path@) && self.path_defaults()[path@] == *v,
                None => !self.path_defaults().contains_key(path@),
            },
    {
        self.paths.get(chars_of(path).as_slice())
    }

    /// The number of binding-path defaults registered.
    pub fn path_count(&self) -> (r: usize)
        ensures
            r == self.path_defaults().dom().len(),
    {
        self.paths.key_count()
    }

    /// Insert or overwrite the content-canvas GUID of an MFD screen slot.
    pub fn insert_mfd_slot(&mut self, view: u32, slot: u32, content_guid: &str)
        ensures
            final(self).mfd_slots() == old(self).mfd_slots().insert((view, slot), content_guid@),
            final(self).path_defaults() == old(self).path_defaults(),
            final(self).screen_colors() == old(self).screen_colors(),
            final(self).localization_table() == old(self).localization_table(),
    {
        let mut slots: Vec<((u32, u32), String)> = Vec::new();
        std::mem::swap(&mut slots, &mut self.mfd_slot_defaults);
        let ghost s0 = slots@;
        slots.push(((view, slot), owned(content_guid)));
        assert(slots@.drop_last() =~= s0);
        self.mfd_slot_defaults = slots;
    }

    /// The content-canvas GUID of an MFD screen slot.
    pub fn lookup_mfd_slot(&self, view: u32, slot: u32) -> (r: Option<&str>)
        ensures
            match r {
                Some(g) => self.mfd_slots().contains_key((view, slot)) && self.mfd_slots()[(view, slot)]
                    == g@,
                None => !self.mfd_slots().contains_key((view, slot)),
            },
    {
        let ghost s = self.mfd_slot_defaults@;
        let mut i: usize = self.mfd_slot_defaults.len();
        assert(s.subrange(0, i as int) =~= s);
        while i > 0
            invariant
                i <= s.len(),
                s == self.mfd_slot_defaults@,
                slots_map(s).contains_key((view, slot)) == slots_map(s.subrange(0, i as int)).contains_key(
                    (view, slot),
                ),
                slots_map(s.subrange(0, i as int)).contains_key((view, slot)) ==> slots_map(s)[(view, slot)]
                    == slots_map(s.subrange(0, i as int))[(view, slot)],
            decreases i,
        {
            let ghost pre = s.subrange(0, i as int);
            assert(pre.drop_last() =~= s.subrange(0, i - 1));
            assert(pre.last() == s[i - 1]);
            let e = &self.mfd_slot_defaults[i - 1];
            if e.0.0 == view && e.0.1 == slot {
                return Some(e.1.as_str());
            }
            i -= 1;
        }
        None
    }

    /// Ingest `screenStates[]` entries: each entry with a string `name` and
    /// integer `color.r`, `color.g`, `color.b` (and optionally `color.a`)
    /// sets that state's backlight colour; other entries are skipped, and a
    /// value that is not an array changes nothing.
    pub fn ingest_screen_states(&mut self, screen_states_json: &Json)
        ensures
            final(self).screen_colors() == spec_ingest_screen_states(old(self).screen_colors(), screen_states_json@),
            final(self).path_defaults() == old(self).path_defaults(),
            final(self).mfd_slots() == old(self).mfd_slots(),
            final(self).localization_table() == old(self).localization_table(),
    {
        let states = match screen_states_json {
            Json::Array(a) => a,
            _ => {
                return;
            },
        };
        proof {
            crate::json::lemma_array_view(*states);
        }
        let ghost m0 = self.screen_colors();
        let ghost a = views(states@);
        let mut colors: Table<RgbaColor> = Table::new();
        std::mem::swap(&mut colors, &mut self.screen_state_colors);
        let mut i: usize = 0;
        while i < states.len()
            invariant
                i <= states@.len(),
                a == views(states@),
                colors@ == screen_states_upto(m0, a, i as int),
            decreases states@.len() - i,
        {
            let state = &states[i];
            assert(a[i as int] == state@);
            let name = match state.str_field("name") {
                Some(n) => n,
                None => {
                    i += 1;
                    continue;
                },
            };
            let color = state.get("color");
            let (r, g, b, al) = match color {
                Some(c) => (c.u64_field("r"), c.u64_field("g"), c.u64_field("b"), c.u64_field("a")),
                None => (None, None, None, None),
            };
            proof {
                if color is None {
                    assert(u64_at(JsonV::Null, "r"@) is None);
                }
            }
            match (r, g, b) {
                (Some(r), Some(g), Some(b)) => {
                    let al = match al {
                        Some(x) => x,
                        None => 255u64,
                    };
                    colors.insert(name, RgbaColor { r: r as u8, g: g as u8, b: b as u8, a: al as u8 });
                },
                _ => {},
            }
            i += 1;
        }
        self.screen_state_colors = colors;
    }

    /// The backlight colour of a screen state, if one was registered.
    pub fn screen_state_color(&self, state_name: &str) -> (r: Option<RgbaColor>)
        ensures
            match r {
                Some(c) => self.screen_colors().contains_key(state_name@) && self.screen_colors()[state_name@]
                    == c,
                None => !self.screen_colors().contains_key(state_name@),
            },
    {
        match self.screen_state_colors.get(chars_of(state_name).as_slice()) {
            Some(c) => Some(*c),
            None => None,
        }
    }

    /// Replace the localization table with `map`.
    pub fn set_localization(&mut self, map: Table<String>)
        ensures
            final(self).localization_table() == map@.map_values(|s: String| s@),
            final(self).path_defaults() == old(self).path_defaults(),
            final(self).mfd_slots() == old(self).mfd_slots(),
            final(self).screen_colors() == old(self).screen_colors(),
    {
        self.localization = map;
    }

    /// Overlay `map` on the localization table: a key whose current value is
    /// the empty sentinel keeps it, any other key of `map` takes the value of
    /// `map`; keys `map` does not name keep their value.
    pub fn merge_localization(&mut self, map: Table<String>)
        ensures
            final(self).localization_table() == merge_localized(
                old(self).localization_table(),
                map@.map_values(|s: String| s@),
            ),
            final(self).path_defaults() == old(self).path_defaults(),
            final(self).mfd_slots() == old(self).mfd_slots(),
            final(self).screen_colors() == old(self).screen_colors(),
    {
        let ghost l0 = self.localization_table();
        let ghost es = string_entries(map.entries@);
        let mut loc: Table<String> = Table::new();
        std::mem::swap(&mut loc, &mut self.localization);
        let mut i: usize = 0;
        while i < map.entries.len()
            invariant
                i <= map.entries@.len(),
                es == string_entries(map.entries@),
                loc@.map_values(|s: String| s@) == merge_upto(l0, es, i as int),
            decreases map.entries@.len() - i,
        {
            let key = &map.entries[i].0;
            assert(es[i as int] == (key@, map.entries@[i as int].1@));
            let keep = match loc.get(key.as_slice()) {
                Some(existing) => existing.as_str().is_empty(),
                None => false,
            };
            if !keep {
                let v = map.entries[i].1.clone();
                loc.insert(crate::strs::copy_chars(key.as_slice()), v);
                assert(loc@.map_values(|s: String| s@) =~= merge_upto(l0, es, i as int).insert(
                    es[i as int].0,
                    es[i as int].1,
                ));
            }
            i += 1;
        }
        proof {
            use_type_invariant(&map);
            lemma_merge_upto_is_merge_localized(l0, map);
        }
        self.localization = loc;
    }

    /// Set one localization key, overriding any current value.
    pub fn insert_localization(&mut self, key: &str, value: String)
        ensures
            final(self).localization_table() == old(self).localization_table().insert(key@, value@),
            final(self).path_defaults() == old(self).path_defaults(),
            final(self).mfd_slots() == old(self).mfd_slots(),
            final(self).screen_colors() == old(self).screen_colors(),
    {
        let ghost v = value@;
        let mut loc: Table<String> = Table::new();
        std::mem::swap(&mut loc, &mut self.localization);
        loc.insert(chars_of(key), value);
        self.localization = loc;
        assert(self.localization_table() =~= old(self).localization_table().insert(key@, v));
    }

    /// Look up a localization key: a leading `@` is dropped and the rest is
    /// lower-cased (`str::to_lowercase`) before the lookup. For an ASCII key
    /// that is the ASCII lower-casing.
    pub fn lookup_localization(&self, key: &str) -> (r: Option<&str>)
        ensures
            match r {
                Some(s) => self.localization_table().contains_key(unicode_lower(bare_key(key@)))
                    && self.localization_table()[unicode_lower(bare_key(key@))] == s@,
                None => !self.localization_table().contains_key(unicode_lower(bare_key(key@))),
            },
            all_ascii_chars(key@) ==> match r {
                Some(s) => self.localization_table().contains_key(lower(bare_key(key@)))
                    && self.localization_table()[lower(bare_key(key@))] == s@,
                None => !self.localization_table().contains_key(lower(bare_key(key@))),
            },
    {
        let k = chars_of(key);
        let bare = if k.len() > 0 && k[0] == '@' {
            crate::strs::sub_chars(k.as_slice(), 1, k.len())
        } else {
            k
        };
        assert(bare@ == bare_key(key@));
        assert(all_ascii_chars(key@) ==> all_ascii_chars(bare_key(key@))) by {
            if all_ascii_chars(key@) && key@.len() > 0 && key@[0] == '@' {
                assert forall|i: int| 0 <= i < bare_key(key@).len() implies (#[trigger] bare_key(key@)[i] as u32)
                    < 128 by {
                    assert(bare_key(key@)[i] == key@[i + 1]);
                }
            }
        }
        let bs = string_of(bare.as_slice());
        let lowered = unicode_to_lowercase(bs.as_str());
        let lc = chars_of(lowered.as_str());
        match self.localization.get(lc.as_slice()) {
            Some(s) => Some(s.as_str()),
            None => None,
        }
    }
}

impl Default for DefaultValueRegistry {
    fn default() -> (r: Self)
        ensures
            r.path_defaults() == Map::<Seq<char>, Value>::empty(),
            r.mfd_slots() == Map::<(u32, u32), Seq<char>>::empty(),
            r.screen_colors() == Map::<Seq<char>, RgbaColor>::empty(),
            r.localization_table() == Map::<Seq<char>, Seq<char>>::empty(),
    {
        DefaultValueRegistry::new()
    }
}


impl DefaultValueRegistry {
    /// A registry holding the well-known binding-path defaults and the
    /// built-in English translations of the keys the MFD canvases use.
    pub fn with_well_known_path_defaults() -> (r: Self)
        ensures
            r.path_defaults().map_values(|v: Value| v@) == well_known_paths(),
            r.localization_table() == well_known_localization(),
            r.mfd_slots() == Map::<(u32, u32), Seq<char>>::empty(),
            r.screen_colors() == Map::<Seq<char>, RgbaColor>::empty(),
    {
        let mut reg = DefaultValueRegistry::new();
        // Target status: the text shown when no target is locked.
        reg.insert_path("/vehicle/targetname", Value::Str(owned("NO TARGET")));
        // Radar and target footer range label.
        reg.insert_path("/vehicle/target/distance", Value::Str(owned("0.0km")));
        // Radar and target footer heading label.
        reg.insert_path("/vehicle/target/bearing", Value::Str(owned("0°")));
        // Self status hit-point box, current value.
        reg.insert_path("/ship/hp/current", Value::Str(owned("MAX")));
        // Self status hit-point box, maximum value.
        reg.insert_path("/ship/hp/max", Value::Str(owned("MAX")));
        // Power management battery state label.
        reg.insert_path("/seatdashboard/powerstate", Value::Str(owned("OFFLINE")));
        // Power management output numerator and denominator.
        reg.insert_path("/seatdashboard/powercurrent", Value::Int(2));
        reg.insert_path("/seatdashboard/powermax", Value::Int(16));
        // Self status gun-group label.
        reg.insert_path("/vehicle/gungroup", Value::Str(owned("(ALL)")));
        // Med-bed header: tiers are seeded at 2 (operations add one to the minimum tier).
        reg.insert_path("CloneLocationInfo/MedicalTier", Value::Int(2));
        reg.insert_path("Bed/MedBed/MedBedStatus/MedicalTier", Value::Int(2));
        // Med-bed header medgel counters.
        reg.insert_path("Bed/MedBed/MedBedStatus/containerOccupancy", Value::Int(200));
        reg.insert_path("Bed/MedBed/MedBedStatus/containerCapacity", Value::Int(200));
        // Med-bed kiosk title row location.
        reg.insert_path("CloneLocationInfo/CurrentLocation/LocationName", Value::Str(owned("Drake Clipper")));
        // Base-screen state flags used by the medical header title.
        reg.insert_path("state.BaseScreens.Heal", Value::Bool(false));
        reg.insert_path("state.BaseScreens.PerformingSurgery", Value::Bool(false));
        reg.insert_path("state.BaseScreens.ConfirmMoreInjuries", Value::Bool(false));
        reg.insert_path("state.BaseScreens.ConfirmNoInjuries", Value::Bool(false));
        reg.insert_path("state.BaseScreens.CloneMe", Value::Bool(false));
        reg.insert_path("state.BaseScreens.Admin", Value::Bool(false));
        // The popup state shows the top-right close button.
        reg.insert_path("Popup/IsActive", Value::Bool(true));
        assert(reg.path_defaults().map_values(|v: Value| v@) =~= well_known_paths());
        // Built-in translations; a live localization table replaces or
        // overlays them.
        let mut loc: Table<String> = Table::new();
        loc.insert(chars_of("hud_notarget"), owned("NO TARGET"));
        loc.insert(chars_of("dfm_ui_target"), owned("TARGET"));
        loc.insert(chars_of("hud_label_velocity"), owned("VELOCITY"));
        loc.insert(chars_of("scan_data_faction"), owned("FACTION"));
        loc.insert(chars_of("ui_nodata"), owned("—"));
        loc.insert(chars_of("innerthought_hail"), owned("HAIL"));
        loc.insert(chars_of("panel_call"), owned("CALL"));
        loc.insert(chars_of("hud_gimbalmode"), owned("GIMBAL MODE"));
        loc.insert(chars_of("hud_activegroup"), owned("ACTIVE GROUP"));
        loc.insert(chars_of("hud_pwr"), owned("PWR"));
        loc.insert(chars_of("flighthud_label_wpn"), owned("WPN"));
        loc.insert(chars_of("hud_thr"), owned("THR"));
        loc.insert(chars_of("hud_shld"), owned("SHLD"));
        loc.insert(chars_of("hud_cool"), owned("COOL"));
        loc.insert(chars_of("hud_selfstatus"), owned("SELF STATUS"));
        loc.insert(chars_of("hud_targetstatus"), owned("TARGET STATUS"));
        loc.insert(chars_of("hud_label_ir"), owned("IR"));
        loc.insert(chars_of("hud_label_em"), owned("EM"));
        loc.insert(chars_of("hud_label_cs"), owned("CS"));
        loc.insert(chars_of("hud_ir"), owned("IR:"));
        loc.insert(chars_of("hud_em"), owned("EM:"));
        loc.insert(chars_of("hud_cs"), owned("CS:"));
        loc.insert(chars_of("engineering_ui_item_output"), owned("OUTPUT"));
        loc.insert(chars_of("item_typebattery"), owned("BATTERY"));
        loc.insert(chars_of("hud_mode"), owned("MODE"));
        loc.insert(chars_of("hud_label_max"), owned("MAX"));
        loc.insert(chars_of("hud_label_weapon"), owned("Weapon"));
        loc.insert(chars_of("rn_offline"), owned("OFFLINE"));
        loc.insert(chars_of("rn_celsiussymbol"), owned("°C"));
        loc.insert(chars_of("loc_empty"), String::new());
        loc.insert(chars_of("loc_placeholder"), String::new());
        reg.set_localization(loc);
        assert(reg.localization_table() =~= well_known_localization());
        reg
    }

    /// The well-known defaults with a live localization table overlaid (see
    /// [`DefaultValueRegistry::merge_localization`]); an absent or empty
    /// table changes nothing.
    pub fn with_pipeline_defaults(localization_map: Option<Table<String>>) -> (r: Self)
        ensures
            r.path_defaults().map_values(|v: Value| v@) == well_known_paths(),
            r.localization_table() == match localization_map {
                Some(m) => merge_localized(well_known_localization(), m@.map_values(|s: String| s@)),
                None => well_known_localization(),
            },
            r.mfd_slots() == Map::<(u32, u32), Seq<char>>::empty(),
            r.screen_colors() == Map::<Seq<char>, RgbaColor>::empty(),
    {
        let mut reg = DefaultValueRegistry::with_well_known_path_defaults();
        match localization_map {
            Some(m) => {
                if m.len() > 0 {
                    reg.merge_localization(m);
                } else {
                    proof {
                        crate::table::lemma_entry_seq(&m);
                        assert(m.entries@ =~= Seq::<(Vec<char>, String)>::empty());
                        let e = m@.map_values(|s: String| s@);
                        assert(e =~= Map::<Seq<char>, Seq<char>>::empty());
                        assert(merge_localized(well_known_localization(), e) =~= well_known_localization());
                    }
                }
            },
            None => {},
        }
        reg
    }
}


/// An empty localization value is a sentinel that merging never replaces;
/// every other value the merge leaves is either the table's own or one of
/// the merged entries'.
pub proof fn lemma_merge_keeps_sentinels(
    loc: Map<Seq<char>, Seq<char>>,
    entries: Seq<(Seq<char>, Seq<char>)>,
    n: int,
    k: Seq<char>,
)
    requires
        0 <= n <= entries.len(),
        loc.contains_key(k),
        loc[k].len() == 0,
    ensures
        merge_upto(loc, entries, n).contains_key(k),
        merge_upto(loc, entries, n)[k] == loc[k],
    decreases n,
{
    if n > 0 {
        lemma_merge_keeps_sentinels(loc, entries, n - 1, k);
    }
}

/// With merged keys that are unique, a key the merge names takes the merged
/// value unless the table holds an empty sentinel for it, and a key it does
/// not name keeps its value (or stays absent).
pub proof fn lemma_merge_overrides(
    loc: Map<Seq<char>, Seq<char>>,
    entries: Seq<(Seq<char>, Seq<char>)>,
    n: int,
    k: Seq<char>,
)
    requires
        0 <= n <= entries.len(),
        forall|i: int, j: int| 0 <= i < j < n ==> (#[trigger] entries[i]).0 != (#[trigger] entries[j]).0,
    ensures
        forall|i: int|
            0 <= i < n && (#[trigger] entries[i]).0 == k && !(loc.contains_key(k) && loc[k].len() == 0)
                ==> merge_upto(loc, entries, n).contains_key(k) && merge_upto(loc, entries, n)[k]
                == entries[i].1,
        (forall|i: int| 0 <= i < n ==> (#[trigger] entries[i]).0 != k) ==> (merge_upto(
            loc,
            entries,
            n,
        ).contains_key(k) == loc.contains_key(k) && (loc.contains_key(k) ==> merge_upto(
            loc,
            entries,
            n,
        )[k] == loc[k])),
    decreases n,
{
    if n > 0 {
        lemma_merge_overrides(loc, entries, n - 1, k);
        let m = merge_upto(loc, entries, n - 1);
        if loc.contains_key(k) && loc[k].len() == 0 {
            lemma_merge_keeps_sentinels(loc, entries, n - 1, k);
        }
        assert forall|i: int|
            0 <= i < n && (#[trigger] entries[i]).0 == k && !(loc.contains_key(k) && loc[k].len() == 0)
                implies merge_upto(loc, entries, n).contains_key(k) && merge_upto(loc, entries, n)[k]
                == entries[i].1 by {
            if i < n - 1 {
                assert(entries[i].0 != entries[n - 1].0);
                if m.contains_key(k) && m[k].len() == 0 {
                    assert(m[k] == entries[i].1);
                }
            } else {
                if m.contains_key(k) && m[k].len() == 0 {
                    assert(forall|j: int| 0 <= j < n - 1 ==> (#[trigger] entries[j]).0 != k) by {
                        assert forall|j: int| 0 <= j < n - 1 implies (#[trigger] entries[j]).0 != k by {
                            assert(entries[j].0 != entries[n - 1].0);
                        }
                    }
                }
            }
        }
    }
}

/// Merging a localization map with one entry per key, key by key: a key of
/// the map takes the map's value unless the table held the empty sentinel
/// for it, which stays; a key the map does not name keeps its value, or
/// stays absent.
proof fn lemma_merge_localization_per_key(loc: Map<Seq<char>, Seq<char>>, map: Table<String>, k: Seq<char>)
    requires
        keys_unique(map.entries@),
    ensures
        ({
            let merged = merge_upto(loc, string_entries(map.entries@), map.entries@.len() as int);
            &&& map@.contains_key(k) ==> merged.contains_key(k) && merged[k] == (if loc.contains_key(k)
                && loc[k].len() == 0 {
                Seq::<char>::empty()
            } else {
                map@[k]@
            })
            &&& !map@.contains_key(k) ==> merged.contains_key(k) == loc.contains_key(k) && (loc.contains_key(k)
                ==> merged[k] == loc[k])
        }),
{
    let s = map.entries@;
    crate::table::lemma_entry_seq(&map);
    let es = string_entries(s);
    let n = s.len() as int;
    assert forall|i: int, j: int| 0 <= i < j < n implies (#[trigger] es[i]).0 != (#[trigger] es[j]).0 by {
        assert(s[i].0@ != s[j].0@);
    }
    lemma_merge_overrides(loc, es, n, k);
    lemma_entries_map_dom(s, k);
    if map@.contains_key(k) {
        let i = choose|i: int| 0 <= i < s.len() && (#[trigger] s[i]).0@ == k;
        lemma_unique_entry_value(s, i);
        assert(es[i].0 == k);
        if loc.contains_key(k) && loc[k].len() == 0 {
            lemma_merge_keeps_sentinels(loc, es, n, k);
            assert(loc[k] =~= Seq::<char>::empty());
        }
    } else {
        assert forall|i: int| 0 <= i < n implies (#[trigger] es[i]).0 != k by {
            assert(es[i].0 == s[i].0@);
        }
    }
}

proof fn lemma_merge_upto_is_merge_localized(loc: Map<Seq<char>, Seq<char>>, map: Table<String>)
    requires
        keys_unique(map.entries@),
    ensures
        merge_upto(loc, string_entries(map.entries@), map.entries@.len() as int) == merge_localized(
            loc,
            map@.map_values(|s: String| s@),
        ),
{
    let merged = merge_upto(loc, string_entries(map.entries@), map.entries@.len() as int);
    let want = merge_localized(loc, map@.map_values(|s: String| s@));
    assert forall|k: Seq<char>| #[trigger] merged.contains_key(k) == want.contains_key(k) by {
        lemma_merge_localization_per_key(loc, map, k);
    }
    assert forall|k: Seq<char>| merged.contains_key(k) implies #[trigger] merged[k] == want[k] by {
        lemma_merge_localization_per_key(loc, map, k);
        if map@.contains_key(k) && loc.contains_key(k) && loc[k].len() == 0 {
            assert(loc[k] =~= Seq::<char>::empty());
        }
    }
    assert(merged =~= want);
}

/// What a binding-path or MFD-slot insert writes is what a lookup of the same
/// key reads back, and no other key changes.
pub proof fn lemma_insert_then_lookup<K, V>(m: Map<K, V>, k: K, v: V, other: K)
    requires
        other != k,
    ensures
        m.insert(k, v).contains_key(k),
        m.insert(k, v)[k] == v,
        m.insert(k, v).contains_key(other) == m.contains_key(other),
        m.contains_key(other) ==> m.insert(k, v)[other] == m[other],
{
}

} // verus!
