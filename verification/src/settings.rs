//! Preferences, the shortcut rule and the history of picked colours.

use vstd::prelude::*;
use crate::copy_format::CopyFormat;
use crate::naming::{color_class, color_name, name_text};
use crate::sample::SampleColor;

verus! {

/// The most recent picks kept in the history.
pub const HISTORY_LIMIT: usize = 24;

/// Which notations the main window shows.
pub struct Formats {
    pub hex: bool,
    pub rgb: bool,
    pub hsl: bool,
    pub cmyk: bool,
}

impl Default for Formats {
    fn default() -> (f: Formats)
        ensures
            f.hex && f.rgb && !f.hsl && !f.cmyk,
    {
        Formats { hex: true, rgb: true, hsl: false, cmyk: false }
    }
}

/// A picked colour kept in the history.
pub struct ColorRecord {
    pub id: String,
    pub timestamp: u64,
    pub r: u8,
    pub g: u8,
    pub b: u8,
    pub hex: String,
    pub rgb: String,
    pub hsl: String,
    pub cmyk: String,
    pub name: String,
}

/// Everything the picker remembers between runs.
pub struct Settings {
    pub shortcut: String,
    pub theme: String,
    pub formats: Formats,
    pub copy_format: CopyFormat,
    pub auto_start: bool,
    pub history: Vec<ColorRecord>,
}

/// A partial update of the preferences; `None` leaves a field as it is.
pub struct Preferences {
    pub theme: Option<String>,
    pub formats: Option<Formats>,
    pub copy_format: Option<CopyFormat>,
    pub auto_start: Option<bool>,
}

/// The shortcut used when none was saved.
pub open spec fn default_shortcut() -> Seq<char> {
    "CommandOrControl+Shift+C"@
}

impl Default for Settings {
    fn default() -> (s: Settings)
        ensures
            s.shortcut@ == default_shortcut(),
            s.theme@ == "system"@,
            s.formats.hex && s.formats.rgb && !s.formats.hsl && !s.formats.cmyk,
            s.copy_format == CopyFormat::Hex,
            !s.auto_start,
            s.history@.len() == 0,
    {
        Settings {
            shortcut: String::from_str("CommandOrControl+Shift+C"),
            theme: String::from_str("system"),
            formats: Formats::default(),
            copy_format: CopyFormat::Hex,
            auto_start: false,
            history: Vec::new(),
        }
    }
}

/// The history after a pick: the new record first, then the older ones, at
/// most `HISTORY_LIMIT` in all.
pub open spec fn history_after_pick(history: Seq<ColorRecord>, record: ColorRecord) -> Seq<ColorRecord> {
    let all = seq![record] + history;
    if all.len() > HISTORY_LIMIT { all.take(HISTORY_LIMIT as int) } else { all }
}

/// The history without the records whose id is `id`, in the same order.
pub open spec fn history_without(history: Seq<ColorRecord>, id: Seq<char>) -> Seq<ColorRecord>
    decreases history.len(),
{
    if history.len() == 0 {
        Seq::empty()
    } else {
        let rest = history_without(history.drop_last(), id);
        if history.last().id@ == id { rest } else { rest.push(history.last()) }
    }
}

/// A shortcut must combine a key with at least one modifier: it holds a `+`.
pub open spec fn is_combination(shortcut: Seq<char>) -> bool {
    exists|i: int| 0 <= i < shortcut.len() && shortcut[i] == '+'
}

/// Whether a shortcut combines a key with a modifier (it holds a `+`).
pub fn shortcut_has_modifier(shortcut: &str) -> (res: bool)
    ensures
        res == is_combination(shortcut@),
{
    let n = shortcut.unicode_len();
    let mut i: usize = 0;
    while i < n
        invariant
            n == shortcut@.len(),
            i <= n,
            forall|j: int| 0 <= j < i ==> shortcut@[j] != '+',
        decreases n - i,
    {
        if shortcut.get_char(i) == '+' {
            return true;
        }
        i += 1;
    }
    false
}

fn copy_string(s: &String) -> (t: String)
    ensures
        t == *s,
{
    s.clone()
}

impl ColorRecord {
    /// The history record of a sampled colour, under the given id and time.
    pub fn from_sample(id: String, timestamp: u64, color: &SampleColor) -> (rec: ColorRecord)
        ensures
            rec.id == id,
            rec.timestamp == timestamp,
            rec.r == color.r && rec.g == color.g && rec.b == color.b,
            rec.hex == color.hex && rec.rgb == color.rgb && rec.hsl == color.hsl,
            rec.cmyk == color.cmyk && rec.name == color.name,
    {
        ColorRecord {
            id,
            timestamp,
            r: color.r,
            g: color.g,
            b: color.b,
            hex: copy_string(&color.hex),
            rgb: copy_string(&color.rgb),
            hsl: copy_string(&color.hsl),
            cmyk: copy_string(&color.cmyk),
            name: copy_string(&color.name),
        }
    }
}

impl Settings {
    /// Applies the fields of `prefs` that are given.
    pub fn apply_preferences(&mut self, prefs: Preferences)
        ensures
            final(self).theme == (match prefs.theme { Some(v) => v, None => old(self).theme }),
            final(self).formats == (match prefs.formats { Some(v) => v, None => old(self).formats }),
            final(self).copy_format == (match prefs.copy_format {
                Some(v) => v,
                None => old(self).copy_format,
            }),
            final(self).auto_start == (match prefs.auto_start {
                Some(v) => v,
                None => old(self).auto_start,
            }),
            final(self).shortcut == old(self).shortcut,
            final(self).history == old(self).history,
    {
        if let Some(v) = prefs.theme {
            self.theme = v;
        }
        if let Some(v) = prefs.formats {
            self.formats = v;
        }
        if let Some(v) = prefs.copy_format {
            self.copy_format = v;
        }
        if let Some(v) = prefs.auto_start {
            self.auto_start = v;
        }
    }

    /// Puts a new pick first in the history and keeps the `HISTORY_LIMIT` most recent.
    pub fn record_pick(&mut self, record: ColorRecord)
        ensures
            final(self).history@ == history_after_pick(old(self).history@, record),
            final(self).shortcut == old(self).shortcut,
            final(self).theme == old(self).theme,
            final(self).formats == old(self).formats,
            final(self).copy_format == old(self).copy_format,
            final(self).auto_start == old(self).auto_start,
    {
        self.history.insert(0, record);
        self.history.truncate(HISTORY_LIMIT);
        proof {
            assert(seq![record] + old(self).history@ =~= old(self).history@.insert(0, record));
        }
    }

    /// Forgets every pick.
    pub fn clear_history(&mut self)
        ensures
            final(self).history@.len() == 0,
            final(self).shortcut == old(self).shortcut,
            final(self).theme == old(self).theme,
            final(self).formats == old(self).formats,
            final(self).copy_format == old(self).copy_format,
            final(self).auto_start == old(self).auto_start,
    {
        self.history.clear();
    }

    /// Forgets the picks whose id is `id`; the others keep their order.
    pub fn delete_history(&mut self, id: &str)
        ensures
            final(self).history@ == history_without(old(self).history@, id@),
            final(self).shortcut == old(self).shortcut,
            final(self).theme == old(self).theme,
            final(self).formats == old(self).formats,
            final(self).copy_format == old(self).copy_format,
            final(self).auto_start == old(self).auto_start,
    {
        let mut old_history: Vec<ColorRecord> = Vec::new();
        std::mem::swap(&mut old_history, &mut self.history);
        let ghost all = old_history@;
        let mut rev: Vec<ColorRecord> = Vec::new();
        while old_history.len() > 0
            invariant
                all == old_history@ + rev@.reverse(),
            decreases old_history@.len(),
        {
            let rec = old_history.pop().unwrap();
            proof {
                assert(rev@.push(rec).reverse() =~= seq![rec] + rev@.reverse());
            }
            rev.push(rec);
        }
        assert(all =~= rev@.reverse());
        let mut kept: Vec<ColorRecord> = Vec::new();
        let ghost taken: Seq<ColorRecord> = Seq::empty();
        while rev.len() > 0
            invariant
                all == taken + rev@.reverse(),
                kept@ == history_without(taken, id@),
            decreases rev@.len(),
        {
            let rec = rev.pop().unwrap();
            proof {
                assert(taken.push(rec).drop_last() =~= taken);
                assert(taken + rev@.push(rec).reverse() =~= taken.push(rec) + rev@.reverse());
                taken = taken.push(rec);
            }
            if !crate::text::str_equals(rec.id.as_str(), id) {
                kept.push(rec);
            }
        }
        assert(taken =~= all);
        self.history = kept;
    }

    /// Renames every history record by the current naming rules.
    pub fn refresh_history_names(&mut self)
        ensures
            final(self).history@.len() == old(self).history@.len(),
            forall|i: int|
                0 <= i < final(self).history@.len() ==> {
                    let o = #[trigger] old(self).history@[i];
                    let n = final(self).history@[i];
                    &&& n.name@ == name_text(color_class(o.r, o.g, o.b))
                    &&& n.id == o.id && n.timestamp == o.timestamp
                    &&& n.r == o.r && n.g == o.g && n.b == o.b
                    &&& n.hex == o.hex && n.rgb == o.rgb && n.hsl == o.hsl && n.cmyk == o.cmyk
                },
            final(self).shortcut == old(self).shortcut,
            final(self).theme == old(self).theme,
            final(self).formats == old(self).formats,
            final(self).copy_format == old(self).copy_format,
            final(self).auto_start == old(self).auto_start,
    {
        let mut history: Vec<ColorRecord> = Vec::new();
        std::mem::swap(&mut history, &mut self.history);
        let ghost orig = history@;
        let mut rev: Vec<ColorRecord> = Vec::new();
        while history.len() > 0
            invariant
                orig == history@ + rev@.reverse(),
            decreases history@.len(),
        {
            let rec = history.pop().unwrap();
            proof {
                assert(rev@.push(rec).reverse() =~= seq![rec] + rev@.reverse());
            }
            rev.push(rec);
        }
        assert(orig =~= rev@.reverse());
        let mut renamed: Vec<ColorRecord> = Vec::new();
        while rev.len() > 0
            invariant
                orig == orig.take(renamed@.len() as int) + rev@.reverse(),
                renamed@.len() + rev@.len() == orig.len(),
                forall|i: int|
                    0 <= i < renamed@.len() ==> {
                        let o = #[trigger] orig[i];
                        let n = renamed@[i];
                        &&& n.name@ == name_text(color_class(o.r, o.g, o.b))
                        &&& n.id == o.id && n.timestamp == o.timestamp
                        &&& n.r == o.r && n.g == o.g && n.b == o.b
                        &&& n.hex == o.hex && n.rgb == o.rgb && n.hsl == o.hsl && n.cmyk == o.cmyk
                    },
            decreases rev@.len(),
        {
            let mut rec = rev.pop().unwrap();
            proof {
                let k = renamed@.len() as int;
                assert(orig[k] == rec) by {
                    assert((orig.take(k) + rev@.push(rec).reverse())[k] == rec);
                }
                assert(orig.take(k + 1) + rev@.reverse() =~= orig.take(k) + rev@.push(rec).reverse());
            }
            rec.name = String::from_str(color_name(rec.r, rec.g, rec.b));
            renamed.push(rec);
        }
        self.history = renamed;
    }
}


/// The history keeps at most `HISTORY_LIMIT` picks, newest first: after a pick
/// the new record leads, followed by the older records in their order.
pub proof fn history_keeps_recent_picks(history: Seq<ColorRecord>, record: ColorRecord)
    ensures
        history_after_pick(history, record).len() <= HISTORY_LIMIT,
        history.len() < HISTORY_LIMIT ==> history_after_pick(history, record).len() == history.len() + 1,
        history_after_pick(history, record)[0] == record,
        forall|i: int|
            1 <= i < history_after_pick(history, record).len() ==> #[trigger] history_after_pick(
                history,
                record,
            )[i] == history[i - 1],
{
    let all = seq![record] + history;
    assert(all[0] == record);
    assert forall|i: int| 1 <= i < all.len() implies #[trigger] all[i] == history[i - 1] by {}
}

/// After deleting an id no record with that id is left, and every record
/// with another id is still there.
pub proof fn deleted_id_is_gone(history: Seq<ColorRecord>, id: Seq<char>)
    ensures
        forall|i: int|
            0 <= i < history_without(history, id).len() ==> #[trigger] history_without(history, id)[i].id@
                != id,
        forall|i: int|
            0 <= i < history.len() && #[trigger] history[i].id@ != id ==> history_without(
                history,
                id,
            ).contains(history[i]),
        history_without(history, id).len() <= history.len(),
    decreases history.len(),
{
    if history.len() > 0 {
        let init = history.drop_last();
        deleted_id_is_gone(init, id);
        let rest = history_without(init, id);
        assert forall|i: int| 0 <= i < history.len() && #[trigger] history[i].id@ != id implies history_without(history, id).contains(history[i]) by {
            if i < history.len() - 1 {
                assert(init[i] == history[i]);
                assert(rest.contains(init[i]));
                if history.last().id@ != id {
                    let j = choose|j: int| 0 <= j < rest.len() && rest[j] == init[i];
                    assert(rest.push(history.last())[j] == history[i]);
                }
            } else {
                assert(history_without(history, id) == rest.push(history.last()));
                assert(rest.push(history.last())[rest.len() as int] == history[i]);
            }
        }
    }
}

} // verus!
