//! The binding-table builder: expansion, parsing, resolution and validation
//! of keyboard and mouse trigger bindings.
//!
//! Trigger strings use a fixed grammar: an optional `M-` prefix (primary
//! modifier), then an optional `S-` prefix (shift), then a non-empty key
//! name. Key names are resolved to physical key codes against a keymap
//! handed in by the caller (obtained from the host keyboard layout).

use vstd::prelude::*;
use crate::actions::{Action, ActionV, ClientOp, ClientOpV, MouseAction};

verus! {

/// A single modifier flag, as written in a literal mouse binding.
#[derive(Clone, Copy, Debug, PartialEq, Eq, Structural)]
pub enum Modifier {
    /// The primary ("meta") modifier.
    Meta,
    /// The shift modifier.
    Shift,
}

/// A canonical set of modifier flags attached to a key or mouse chord.
#[derive(Clone, Copy, Debug, PartialEq, Eq, Hash, Structural)]
pub struct ModSet {
    /// Whether the primary ("meta") modifier is held.
    pub meta: bool,
    /// Whether the shift modifier is held.
    pub shift: bool,
}

/// A fully resolved key trigger: a modifier set plus a physical key code.
#[derive(Clone, Copy, Debug, PartialEq, Eq, Hash, Structural)]
pub struct KeyTrigger {
    /// The modifiers that must be held.
    pub mods: ModSet,
    /// The physical key code the host keymap assigns to the key name.
    pub code: u8,
}

/// A literal key binding before resolution: a trigger string and an action.
#[derive(Clone, Debug, PartialEq, Eq)]
pub struct RawBinding {
    /// The symbolic trigger descriptor, e.g. `"M-S-q"`.
    pub trigger: String,
    /// The action the trigger is bound to.
    pub action: Action,
}

/// Spec-level mirror of [`RawBinding`].
pub struct RawBindingV {
    /// The trigger string as a character sequence.
    pub trigger: Seq<char>,
    /// The bound action.
    pub action: ActionV,
}

impl View for RawBinding {
    type V = RawBindingV;

    open spec fn view(&self) -> RawBindingV {
        RawBindingV { trigger: self.trigger@, action: self.action@ }
    }
}

/// The views of a sequence of raw bindings.
pub open spec fn binding_views(s: Seq<RawBinding>) -> Seq<RawBindingV> {
    s.map_values(|b: RawBinding| b@)
}

/// One entry of the host keymap: a symbolic key name and its key code.
#[derive(Clone, Debug, PartialEq, Eq)]
pub struct KeyMapping {
    /// The symbolic key name, e.g. `"space"` or `"XF86AudioMute"`.
    pub name: String,
    /// The physical key code producing that symbol.
    pub code: u8,
}

/// Spec-level mirror of [`KeyMapping`].
pub struct KeyMappingV {
    /// The key name as a character sequence.
    pub name: Seq<char>,
    /// The physical key code.
    pub code: u8,
}

impl View for KeyMapping {
    type V = KeyMappingV;

    open spec fn view(&self) -> KeyMappingV {
        KeyMappingV { name: self.name@, code: self.code }
    }
}

/// The views of a keymap.
pub open spec fn keymap_views(s: Seq<KeyMapping>) -> Seq<KeyMappingV> {
    s.map_values(|m: KeyMapping| m@)
}

/// First-match lookup of a key name in the keymap, starting at index `i`.
pub open spec fn keymap_lookup_from(km: Seq<KeyMappingV>, name: Seq<char>, i: int) -> Option<u8>
    decreases km.len() - i,
{
    if i < 0 || i >= km.len() {
        None
    } else if km[i].name == name {
        Some(km[i].code)
    } else {
        keymap_lookup_from(km, name, i + 1)
    }
}

/// First-match lookup of a key name in the keymap.
pub open spec fn keymap_lookup(km: Seq<KeyMappingV>, name: Seq<char>) -> Option<u8> {
    keymap_lookup_from(km, name, 0)
}

/// Look a key name up in the keymap; first matching entry wins.
pub fn lookup_key_code(keymap: &Vec<KeyMapping>, name: &String) -> (r: Option<u8>)
    ensures
        r == keymap_lookup(keymap_views(keymap@), name@),
{
    let ghost km = keymap_views(keymap@);
    let mut i: usize = 0;
    while i < keymap.len()
        invariant
            0 <= i <= keymap.len(),
            km == keymap_views(keymap@),
            km.len() == keymap@.len(),
            keymap_lookup(km, name@) == keymap_lookup_from(km, name@, i as int),
        decreases keymap.len() - i,
    {
        if keymap[i].name.eq(name) {
            return Some(keymap[i].code);
        }
        i = i + 1;
    }
    None
}

/// Strips the two-character prefix `{m}-` from `s`, if present.
pub open spec fn strip_mod(s: Seq<char>, m: char) -> Option<Seq<char>> {
    if s.len() >= 2 && s[0] == m && s[1] == '-' {
        Some(s.subrange(2, s.len() as int))
    } else {
        None
    }
}

/// Parses the optional `S-` prefix and the key name, `meta` already decided.
pub open spec fn parse_shift(s: Seq<char>, meta: bool) -> Option<(ModSet, Seq<char>)> {
    match strip_mod(s, 'S') {
        Some(rest) => if rest.len() > 0 {
            Some((ModSet { meta, shift: true }, rest))
        } else {
            None
        },
        None => if s.len() > 0 {
            Some((ModSet { meta, shift: false }, s))
        } else {
            None
        },
    }
}

/// Parses a trigger string into its modifier set and key name.
///
/// The grammar is: an optional `M-` prefix, then an optional `S-` prefix,
/// then a non-empty key name. `None` means the string is not a valid
/// grammar token.
pub open spec fn parse_trigger(s: Seq<char>) -> Option<(ModSet, Seq<char>)> {
    match strip_mod(s, 'M') {
        Some(after_meta) => parse_shift(after_meta, true),
        None => parse_shift(s, false),
    }
}

/// Parse a trigger string: split the modifier prefix from the key name.
pub fn parse_trigger_exec(s: &String) -> (r: Option<(ModSet, String)>)
    ensures
        match r {
            Some(p) => parse_trigger(s@) == Some((p.0, p.1@)),
            None => parse_trigger(s@) is None,
        },
{
    let n = s.as_str().unicode_len();
    let mut meta = false;
    let mut start: usize = 0;
    if n >= 2 && s.as_str().get_char(0) == 'M' && s.as_str().get_char(1) == '-' {
        meta = true;
        start = 2;
    }
    proof {
        if meta {
            assert(strip_mod(s@, 'M') == Some(s@.subrange(2, n as int)));
        } else {
            assert(strip_mod(s@, 'M') is None);
        }
    }
    let ghost after_meta = if meta { s@.subrange(2, n as int) } else { s@ };
    assert(after_meta == s@.subrange(start as int, n as int));
    let mut shift = false;
    if n - start >= 2 && s.as_str().get_char(start) == 'S' && s.as_str().get_char(start + 1) == '-' {
        shift = true;
        start = start + 2;
    }
    proof {
        if shift {
            assert(after_meta.len() >= 2 && after_meta[0] == 'S' && after_meta[1] == '-');
            assert(strip_mod(after_meta, 'S') == Some(after_meta.subrange(2, after_meta.len() as int)));
            assert(after_meta.subrange(2, after_meta.len() as int) =~= s@.subrange(
                start as int,
                n as int,
            ));
        } else {
            assert(strip_mod(after_meta, 'S') is None);
        }
    }
    let ghost rest = s@.subrange(start as int, n as int);
    if n > start {
        let name = s.as_str().substring_char(start, n);
        let owned = String::from_str(name);
        assert(owned@ == rest);
        Some((ModSet { meta, shift }, owned))
    } else {
        assert(rest.len() == 0);
        None
    }
}

/// First index at or after `i` whose trigger string equals `s`, if any.
pub open spec fn find_trigger_from(t: Seq<RawBindingV>, s: Seq<char>, i: int) -> Option<int>
    decreases t.len() - i,
{
    if i < 0 || i >= t.len() {
        None
    } else if t[i].trigger == s {
        Some(i)
    } else {
        find_trigger_from(t, s, i + 1)
    }
}

/// First index whose trigger string equals `s`, if any.
pub open spec fn find_trigger(t: Seq<RawBindingV>, s: Seq<char>) -> Option<int> {
    find_trigger_from(t, s, 0)
}

/// What [`find_trigger_from`] returns: the first match at or after `i`.
pub proof fn lemma_find_trigger_from_props(t: Seq<RawBindingV>, s: Seq<char>, i: int)
    requires
        0 <= i <= t.len(),
    ensures
        match find_trigger_from(t, s, i) {
            Some(j) => i <= j < t.len() && t[j].trigger == s && (forall|k: int|
                i <= k < j ==> t[k].trigger != s),
            None => forall|k: int| i <= k < t.len() ==> t[k].trigger != s,
        },
    decreases t.len() - i,
{
    if i < t.len() && t[i].trigger != s {
        lemma_find_trigger_from_props(t, s, i + 1);
    }
}

/// Inserts one binding into a table with map semantics: an existing entry
/// with the same trigger is overwritten in place, otherwise the binding is
/// appended.
pub open spec fn insert_binding(t: Seq<RawBindingV>, b: RawBindingV) -> Seq<RawBindingV> {
    match find_trigger(t, b.trigger) {
        Some(i) => t.update(i, b),
        None => t.push(b),
    }
}

/// Normalizes an ordered list of bindings into a duplicate-free table by
/// inserting the entries in order; a later entry with an already-present
/// trigger string overwrites the earlier one (last write wins).
pub open spec fn dedup_entries(s: Seq<RawBindingV>) -> Seq<RawBindingV>
    decreases s.len(),
{
    if s.len() == 0 {
        Seq::empty()
    } else {
        insert_binding(dedup_entries(s.drop_last()), s.last())
    }
}

/// No two entries of `t` share a trigger string.
pub open spec fn unique_triggers(t: Seq<RawBindingV>) -> bool {
    forall|i: int, j: int| 0 <= i < j < t.len() ==> t[i].trigger != t[j].trigger
}

/// Inserting preserves trigger uniqueness.
pub proof fn lemma_insert_preserves_unique(t: Seq<RawBindingV>, b: RawBindingV)
    requires
        unique_triggers(t),
    ensures
        unique_triggers(insert_binding(t, b)),
{
    lemma_find_trigger_from_props(t, b.trigger, 0);
    match find_trigger(t, b.trigger) {
        Some(i) => {
            let t2 = t.update(i, b);
            assert forall|p: int, q: int| 0 <= p < q < t2.len() implies t2[p].trigger
                != t2[q].trigger by {
                if p != i && q != i {
                    assert(t2[p] == t[p] && t2[q] == t[q]);
                }
            }
        },
        None => {
            let t2 = t.push(b);
            assert forall|p: int, q: int| 0 <= p < q < t2.len() implies t2[p].trigger
                != t2[q].trigger by {
                if q == t.len() {
                    assert(t2[p] == t[p] && t2[q] == b);
                }
            }
        },
    }
}

/// A normalized table has no duplicate triggers.
pub proof fn lemma_dedup_unique(s: Seq<RawBindingV>)
    ensures
        unique_triggers(dedup_entries(s)),
    decreases s.len(),
{
    if s.len() > 0 {
        lemma_dedup_unique(s.drop_last());
        lemma_insert_preserves_unique(dedup_entries(s.drop_last()), s.last());
    }
}

/// A binding list that is already free of duplicate triggers is left
/// unchanged by last-write-wins normalization.
pub proof fn lemma_dedup_identity_on_unique(t: Seq<RawBindingV>)
    requires
        unique_triggers(t),
    ensures
        dedup_entries(t) == t,
    decreases t.len(),
{
    if t.len() == 0 {
        assert(dedup_entries(t) =~= t);
    } else {
        let prefix = t.drop_last();
        assert(unique_triggers(prefix)) by {
            assert(forall|i: int, j: int|
                0 <= i < j < prefix.len() ==> prefix[i] == t[i] && prefix[j] == t[j]);
        }
        lemma_dedup_identity_on_unique(prefix);
        lemma_find_trigger_from_props(prefix, t.last().trigger, 0);
        match find_trigger(prefix, t.last().trigger) {
            Some(i) => {
                assert(prefix[i].trigger == t[i].trigger);
                assert(false);
            },
            None => {
                assert(dedup_entries(t) == prefix.push(t.last()));
                assert(prefix.push(t.last()) =~= t);
            },
        }
    }
}

/// Normalizing an already-normalized table yields the identical table:
/// resolving a valid binding table twice changes nothing.
pub proof fn lemma_dedup_idempotent(s: Seq<RawBindingV>)
    ensures
        dedup_entries(dedup_entries(s)) == dedup_entries(s),
{
    lemma_dedup_unique(s);
    lemma_dedup_identity_on_unique(dedup_entries(s));
}

/// The action a normalized table associates with a trigger string.
pub open spec fn raw_lookup(t: Seq<RawBindingV>, trig: Seq<char>) -> Option<ActionV> {
    match find_trigger(t, trig) {
        Some(i) => Some(t[i].action),
        None => None,
    }
}

/// The action of the last entry of `s` carrying the trigger string `trig`.
pub open spec fn last_action_for(s: Seq<RawBindingV>, trig: Seq<char>) -> Option<ActionV>
    decreases s.len(),
{
    if s.len() == 0 {
        None
    } else if s.last().trigger == trig {
        Some(s.last().action)
    } else {
        last_action_for(s.drop_last(), trig)
    }
}

/// Two tables with identical trigger strings at every index are searched
/// identically.
proof fn lemma_find_same_triggers(t1: Seq<RawBindingV>, t2: Seq<RawBindingV>, s: Seq<char>, i: int)
    requires
        t1.len() == t2.len(),
        forall|k: int| 0 <= k < t1.len() ==> t1[k].trigger == t2[k].trigger,
        0 <= i,
    ensures
        find_trigger_from(t1, s, i) == find_trigger_from(t2, s, i),
    decreases t1.len() - i,
{
    if i < t1.len() && t1[i].trigger != s {
        lemma_find_same_triggers(t1, t2, s, i + 1);
    }
}

/// Searching a table extended by one entry: existing matches win, otherwise
/// the new entry is found exactly when its trigger matches.
proof fn lemma_find_push(t: Seq<RawBindingV>, b: RawBindingV, s: Seq<char>, i: int)
    requires
        0 <= i <= t.len(),
    ensures
        find_trigger_from(t.push(b), s, i) == match find_trigger_from(t, s, i) {
            Some(j) => Some(j),
            None => if b.trigger == s {
                Some(t.len() as int)
            } else {
                None
            },
        },
    decreases t.len() - i,
{
    let t2 = t.push(b);
    if i == t.len() {
        assert(t2[i] == b);
        if b.trigger != s {
            assert(find_trigger_from(t2, s, i + 1) is None);
        }
    } else if t[i].trigger == s {
        assert(t2[i] == t[i]);
    } else {
        assert(t2[i] == t[i]);
        lemma_find_push(t, b, s, i + 1);
    }
}

/// Looking up in `insert_binding(t, b)`: the trigger of `b` now maps to the
/// action of `b`, and every other trigger maps to what it mapped to before.
pub proof fn lemma_raw_lookup_insert(t: Seq<RawBindingV>, b: RawBindingV, trig: Seq<char>)
    requires
        unique_triggers(t),
    ensures
        trig == b.trigger ==> raw_lookup(insert_binding(t, b), trig) == Some(b.action),
        trig != b.trigger ==> raw_lookup(insert_binding(t, b), trig) == raw_lookup(t, trig),
{
    lemma_find_trigger_from_props(t, b.trigger, 0);
    match find_trigger(t, b.trigger) {
        Some(i) => {
            let t2 = t.update(i, b);
            assert(forall|k: int| 0 <= k < t.len() ==> t[k].trigger == t2[k].trigger);
            lemma_find_same_triggers(t, t2, trig, 0);
            lemma_find_trigger_from_props(t, trig, 0);
            lemma_find_trigger_from_props(t2, trig, 0);
            if trig == b.trigger {
                assert(find_trigger(t2, trig) == Some(i));
            } else {
                match find_trigger(t2, trig) {
                    Some(j) => {
                        assert(t2[j].trigger == trig);
                        assert(j != i);
                        assert(t2[j] == t[j]);
                    },
                    None => {},
                }
            }
        },
        None => {
            let t2 = t.push(b);
            lemma_find_push(t, b, trig, 0);
            lemma_find_trigger_from_props(t, trig, 0);
            match find_trigger(t, trig) {
                Some(j) => {
                    assert(t2[j] == t[j]);
                },
                None => {},
            }
        },
    }
}

/// Last write wins: a normalized binding list maps each trigger string to
/// the action of the *last* raw entry that carried that trigger.
pub proof fn lemma_dedup_last_write_wins(s: Seq<RawBindingV>, trig: Seq<char>)
    ensures
        raw_lookup(dedup_entries(s), trig) == last_action_for(s, trig),
    decreases s.len(),
{
    if s.len() == 0 {
        lemma_find_trigger_from_props(dedup_entries(s), trig, 0);
    } else {
        let prefix = s.drop_last();
        lemma_dedup_last_write_wins(prefix, trig);
        lemma_dedup_unique(prefix);
        lemma_raw_lookup_insert(dedup_entries(prefix), s.last(), trig);
    }
}

/// Find the index of an existing entry with the given trigger string.
fn find_binding_index(t: &Vec<RawBinding>, trigger: &String) -> (r: Option<usize>)
    ensures
        match r {
            Some(i) => find_trigger(binding_views(t@), trigger@) == Some(i as int),
            None => find_trigger(binding_views(t@), trigger@) is None,
        },
{
    let ghost tv = binding_views(t@);
    let mut i: usize = 0;
    while i < t.len()
        invariant
            0 <= i <= t.len(),
            tv == binding_views(t@),
            tv.len() == t@.len(),
            find_trigger(tv, trigger@) == find_trigger_from(tv, trigger@, i as int),
        decreases t.len() - i,
    {
        if t[i].trigger.eq(trigger) {
            return Some(i);
        }
        i = i + 1;
    }
    None
}

/// Normalize an ordered binding list with last-write-wins semantics: the
/// first occurrence of each trigger string keeps its position, the last
/// occurrence supplies the action.
pub fn dedup_bindings(entries: Vec<RawBinding>) -> (r: Vec<RawBinding>)
    ensures
        binding_views(r@) == dedup_entries(binding_views(entries@)),
        unique_triggers(binding_views(r@)),
{
    let ghost all = binding_views(entries@);
    let mut rest = entries;
    let mut out: Vec<RawBinding> = Vec::new();
    let ghost done: int = 0;
    assert(binding_views(rest@) =~= all.skip(0));
    assert(binding_views(out@) =~= dedup_entries(all.take(0)));
    while rest.len() > 0
        invariant
            0 <= done <= all.len(),
            binding_views(rest@) == all.skip(done),
            binding_views(out@) == dedup_entries(all.take(done)),
        decreases rest.len(),
    {
        proof {
            assert(binding_views(rest@).len() == rest@.len());
            assert(all.skip(done).len() == all.len() - done);
        }
        let ghost prev = rest@;
        let b = rest.remove(0);
        proof {
            assert(binding_views(prev)[0] == prev[0]@);
            assert(all.skip(done)[0] == all[done]);
            assert(b@ == all[done]);
            assert forall|j: int| 0 <= j < rest@.len() implies binding_views(rest@)[j] == all.skip(
                done + 1,
            )[j] by {
                assert(rest@[j] == prev[j + 1]);
                assert(binding_views(prev)[j + 1] == prev[j + 1]@);
                assert(all.skip(done)[j + 1] == all[done + 1 + j]);
            }
            assert(binding_views(rest@) =~= all.skip(done + 1));
        }
        let ghost out_v = binding_views(out@);
        match find_binding_index(&out, &b.trigger) {
            Some(i) => {
                proof {
                    lemma_find_trigger_from_props(out_v, b.trigger@, 0);
                }
                out.set(i, b);
                proof {
                    assert(binding_views(out@) =~= out_v.update(i as int, all[done]));
                }
            },
            None => {
                out.push(b);
                proof {
                    assert(binding_views(out@) =~= out_v.push(all[done]));
                }
            },
        }
        proof {
            assert(all.take(done + 1).drop_last() =~= all.take(done));
            assert(all.take(done + 1).last() == all[done]);
            assert(binding_views(out@) == insert_binding(dedup_entries(all.take(done)), all[done]));
            done = done + 1;
        }
    }
    proof {
        assert(all.take(done) =~= all);
        lemma_dedup_unique(all);
    }
    out
}

/// The views of a sequence of workspace tags.
pub open spec fn tag_views(s: Seq<String>) -> Seq<Seq<char>> {
    s.map_values(|t: String| t@)
}

/// The trigger string that switches focus to the given tag: `M-{tag}`.
pub open spec fn focus_trigger(tag: Seq<char>) -> Seq<char> {
    "M-"@ + tag
}

/// The trigger string that moves the focused window to the given tag:
/// `M-S-{tag}`.
pub open spec fn move_trigger(tag: Seq<char>) -> Seq<char> {
    "M-S-"@ + tag
}

/// The two bindings generated for one workspace tag.
pub open spec fn generated_for(tag: Seq<char>) -> Seq<RawBindingV> {
    seq![
        RawBindingV {
            trigger: focus_trigger(tag),
            action: ActionV::Modify(ClientOpV::FocusTag(tag)),
        },
        RawBindingV {
            trigger: move_trigger(tag),
            action: ActionV::Modify(ClientOpV::MoveFocusedToTag(tag)),
        },
    ]
}

/// The per-workspace binding family: for every tag `t` in order, `M-{t}`
/// bound to focus-tag and `M-S-{t}` bound to move-to-tag.
pub open spec fn generated_entries(tags: Seq<Seq<char>>) -> Seq<RawBindingV>
    decreases tags.len(),
{
    if tags.len() == 0 {
        Seq::empty()
    } else {
        generated_entries(tags.drop_last()) + generated_for(tags.last())
    }
}

/// The generation step produces exactly two entries for each workspace tag.
pub proof fn lemma_generated_entries_len(tags: Seq<Seq<char>>)
    ensures
        generated_entries(tags).len() == 2 * tags.len(),
    decreases tags.len(),
{
    if tags.len() > 0 {
        lemma_generated_entries_len(tags.drop_last());
    }
}

/// For every tag, the generated family contains `M-{t}` bound to focus-tag
/// and `M-S-{t}` bound to move-to-tag, in tag order.
pub proof fn lemma_generated_entries_at(tags: Seq<Seq<char>>, i: int)
    requires
        0 <= i < tags.len(),
    ensures
        generated_entries(tags)[2 * i] == generated_for(tags[i])[0],
        generated_entries(tags)[2 * i + 1] == generated_for(tags[i])[1],
    decreases tags.len(),
{
    lemma_generated_entries_len(tags.drop_last());
    if i == tags.len() - 1 {
    } else {
        lemma_generated_entries_at(tags.drop_last(), i);
    }
}

/// Synthesize the per-workspace bindings: for every tag `t` in order,
/// `M-{t}` switches focus to `t` and `M-S-{t}` moves the focused window
/// to `t`.
pub fn generate_tag_bindings(tags: &Vec<String>) -> (r: Vec<RawBinding>)
    ensures
        binding_views(r@) == generated_entries(tag_views(tags@)),
{
    let ghost tv = tag_views(tags@);
    let mut r: Vec<RawBinding> = Vec::new();
    let mut i: usize = 0;
    assert(binding_views(r@) =~= generated_entries(tv.take(0)));
    while i < tags.len()
        invariant
            0 <= i <= tags.len(),
            tv == tag_views(tags@),
            tv.len() == tags@.len(),
            binding_views(r@) == generated_entries(tv.take(i as int)),
        decreases tags.len() - i,
    {
        let ghost prev = binding_views(r@);
        let tag = &tags[i];
        assert(tag@ == tv[i as int]);
        let focus = String::from_str("M-").concat(tag.as_str());
        let focus_tag = tag.clone();
        r.push(RawBinding { trigger: focus, action: Action::Modify(ClientOp::FocusTag(focus_tag)) });
        let relocate = String::from_str("M-S-").concat(tag.as_str());
        let move_tag = tag.clone();
        r.push(
            RawBinding {
                trigger: relocate,
                action: Action::Modify(ClientOp::MoveFocusedToTag(move_tag)),
            },
        );
        proof {
            assert(binding_views(r@) =~= prev + generated_for(tv[i as int]));
            assert(tv.take(i + 1).drop_last() =~= tv.take(i as int));
            assert(tv.take(i + 1).last() == tv[i as int]);
            assert(binding_views(r@) == generated_entries(tv.take(i + 1)));
        }
        i = i + 1;
    }
    assert(tv.take(tv.len() as int) =~= tv);
    r
}

/// Failure to resolve a single trigger string.
#[derive(Clone, Debug, PartialEq, Eq)]
pub enum BindFailure {
    /// The trigger string is not a valid grammar token (its key name is
    /// empty).
    BadGrammar {
        /// The offending trigger string.
        trigger: String,
    },
    /// The host keymap has no physical key producing the requested symbol.
    UnknownKey {
        /// The offending trigger string.
        trigger: String,
        /// The key name that the keymap does not know.
        key_name: String,
    },
}

/// Spec-level mirror of [`BindFailure`].
pub enum BindFailureV {
    /// Mirror of [`BindFailure::BadGrammar`].
    BadGrammar {
        /// The offending trigger string.
        trigger: Seq<char>,
    },
    /// Mirror of [`BindFailure::UnknownKey`].
    UnknownKey {
        /// The offending trigger string.
        trigger: Seq<char>,
        /// The unknown key name.
        key_name: Seq<char>,
    },
}

impl View for BindFailure {
    type V = BindFailureV;

    open spec fn view(&self) -> BindFailureV {
        match self {
            BindFailure::BadGrammar { trigger } => BindFailureV::BadGrammar { trigger: trigger@ },
            BindFailure::UnknownKey { trigger, key_name } => BindFailureV::UnknownKey {
                trigger: trigger@,
                key_name: key_name@,
            },
        }
    }
}

/// The views of a sequence of resolution failures.
pub open spec fn failure_views(s: Seq<BindFailure>) -> Seq<BindFailureV> {
    s.map_values(|f: BindFailure| f@)
}

/// A resolved binding that still remembers its source trigger string, for
/// error reporting.
#[derive(Clone, Debug, PartialEq, Eq)]
pub struct SourcedBinding {
    /// The trigger string the binding came from.
    pub source: String,
    /// The resolved trigger.
    pub trigger: KeyTrigger,
    /// The bound action.
    pub action: Action,
}

/// Spec-level mirror of [`SourcedBinding`].
pub struct SourcedBindingV {
    /// The source trigger string.
    pub source: Seq<char>,
    /// The resolved trigger.
    pub trigger: KeyTrigger,
    /// The bound action.
    pub action: ActionV,
}

impl View for SourcedBinding {
    type V = SourcedBindingV;

    open spec fn view(&self) -> SourcedBindingV {
        SourcedBindingV { source: self.source@, trigger: self.trigger, action: self.action@ }
    }
}

/// The views of a sequence of sourced bindings.
pub open spec fn sourced_views(s: Seq<SourcedBinding>) -> Seq<SourcedBindingV> {
    s.map_values(|b: SourcedBinding| b@)
}

/// Resolution of one raw binding: parse the trigger string, then look the
/// key name up in the host keymap.
pub open spec fn resolve_one(b: RawBindingV, km: Seq<KeyMappingV>) -> Result<KeyTrigger, BindFailureV> {
    match parse_trigger(b.trigger) {
        None => Err(BindFailureV::BadGrammar { trigger: b.trigger }),
        Some(p) => match keymap_lookup(km, p.1) {
            None => Err(BindFailureV::UnknownKey { trigger: b.trigger, key_name: p.1 }),
            Some(code) => Ok(KeyTrigger { mods: p.0, code }),
        },
    }
}

/// All resolution failures of `s`, in entry order.
pub open spec fn failures_of(s: Seq<RawBindingV>, km: Seq<KeyMappingV>) -> Seq<BindFailureV>
    decreases s.len(),
{
    if s.len() == 0 {
        Seq::empty()
    } else {
        failures_of(s.drop_last(), km) + match resolve_one(s.last(), km) {
            Err(f) => seq![f],
            Ok(_) => Seq::empty(),
        }
    }
}

/// The successfully resolved entries of `s`, in entry order.
pub open spec fn resolved_of(s: Seq<RawBindingV>, km: Seq<KeyMappingV>) -> Seq<SourcedBindingV>
    decreases s.len(),
{
    if s.len() == 0 {
        Seq::empty()
    } else {
        resolved_of(s.drop_last(), km) + match resolve_one(s.last(), km) {
            Ok(tr) => seq![
                SourcedBindingV { source: s.last().trigger, trigger: tr, action: s.last().action },
            ],
            Err(_) => Seq::empty(),
        }
    }
}

/// When no entry fails to resolve, the resolved entries follow the raw
/// entries one-to-one, in order: each keeps its trigger string and its
/// action, and carries the trigger that [`resolve_one`] assigns it. With
/// [`lemma_dedup_last_write_wins`], the action a built table holds for a
/// trigger string is therefore the *last* raw action written to it.
pub proof fn lemma_resolved_all_ok(s: Seq<RawBindingV>, km: Seq<KeyMappingV>)
    requires
        failures_of(s, km).len() == 0,
    ensures
        resolved_of(s, km).len() == s.len(),
        forall|i: int|
            0 <= i < s.len() ==> resolved_of(s, km)[i].source == s[i].trigger && resolved_of(
                s,
                km,
            )[i].action == s[i].action && resolve_one(s[i], km) == Ok::<KeyTrigger, BindFailureV>(
                resolved_of(s, km)[i].trigger,
            ),
    decreases s.len(),
{
    if s.len() > 0 {
        let prefix = s.drop_last();
        assert(failures_of(prefix, km).len() == 0);
        lemma_resolved_all_ok(prefix, km);
        match resolve_one(s.last(), km) {
            Err(_) => {
                assert(failures_of(s, km).len() > 0);
            },
            Ok(tr) => {
                assert forall|i: int| 0 <= i < s.len() implies resolved_of(s, km)[i].source
                    == s[i].trigger && resolved_of(s, km)[i].action == s[i].action && resolve_one(
                    s[i],
                    km,
                ) == Ok::<KeyTrigger, BindFailureV>(resolved_of(s, km)[i].trigger) by {
                    if i < s.len() - 1 {
                        assert(resolved_of(s, km)[i] == resolved_of(prefix, km)[i]);
                        assert(s[i] == prefix[i]);
                    }
                }
            },
        }
    }
}

/// Resolve every entry against the keymap. Failures are aggregated: if any
/// entry fails, *all* failing entries are reported, in order, and no table
/// is produced.
pub fn resolve_bindings(entries: Vec<RawBinding>, keymap: &Vec<KeyMapping>) -> (r: Result<
    Vec<SourcedBinding>,
    Vec<BindFailure>,
>)
    ensures
        ({
            let sv = binding_views(entries@);
            let km = keymap_views(keymap@);
            match r {
                Ok(res) => failures_of(sv, km).len() == 0 && sourced_views(res@) == resolved_of(
                    sv,
                    km,
                ),
                Err(fs) => failure_views(fs@) == failures_of(sv, km) && fs@.len() > 0,
            }
        }),
{
    let ghost all = binding_views(entries@);
    let ghost km = keymap_views(keymap@);
    let mut rest = entries;
    let mut res: Vec<SourcedBinding> = Vec::new();
    let mut fails: Vec<BindFailure> = Vec::new();
    let ghost done: int = 0;
    assert(binding_views(rest@) =~= all.skip(0));
    assert(sourced_views(res@) =~= resolved_of(all.take(0), km));
    assert(failure_views(fails@) =~= failures_of(all.take(0), km));
    while rest.len() > 0
        invariant
            0 <= done <= all.len(),
            km == keymap_views(keymap@),
            binding_views(rest@) == all.skip(done),
            sourced_views(res@) == resolved_of(all.take(done), km),
            failure_views(fails@) == failures_of(all.take(done), km),
        decreases rest.len(),
    {
        proof {
            assert(binding_views(rest@).len() == rest@.len());
            assert(all.skip(done).len() == all.len() - done);
        }
        let ghost prev = rest@;
        let b = rest.remove(0);
        proof {
            assert(binding_views(prev)[0] == prev[0]@);
            assert(all.skip(done)[0] == all[done]);
            assert(b@ == all[done]);
            assert forall|j: int| 0 <= j < rest@.len() implies binding_views(rest@)[j] == all.skip(
                done + 1,
            )[j] by {
                assert(rest@[j] == prev[j + 1]);
                assert(binding_views(prev)[j + 1] == prev[j + 1]@);
                assert(all.skip(done)[j + 1] == all[done + 1 + j]);
            }
            assert(binding_views(rest@) =~= all.skip(done + 1));
        }
        let ghost res_v = sourced_views(res@);
        let ghost fails_v = failure_views(fails@);
        proof {
            assert(all.take(done + 1).drop_last() =~= all.take(done));
            assert(all.take(done + 1).last() == all[done]);
        }
        match parse_trigger_exec(&b.trigger) {
            None => {
                let ghost f = BindFailureV::BadGrammar { trigger: all[done].trigger };
                assert(resolve_one(all[done], km) == Err::<KeyTrigger, BindFailureV>(f));
                fails.push(BindFailure::BadGrammar { trigger: b.trigger });
                proof {
                    assert(failure_views(fails@) =~= fails_v + seq![f]);
                    assert(resolved_of(all.take(done + 1), km) =~= resolved_of(all.take(done), km));
                }
            },
            Some(parsed) => {
                let (mods, name) = parsed;
                let ghost name_v = name@;
                match lookup_key_code(keymap, &name) {
                    None => {
                        let ghost f = BindFailureV::UnknownKey {
                            trigger: all[done].trigger,
                            key_name: name_v,
                        };
                        assert(resolve_one(all[done], km) == Err::<KeyTrigger, BindFailureV>(f));
                        fails.push(BindFailure::UnknownKey { trigger: b.trigger, key_name: name });
                        proof {
                            assert(failure_views(fails@) =~= fails_v + seq![f]);
                            assert(resolved_of(all.take(done + 1), km) =~= resolved_of(
                                all.take(done),
                                km,
                            ));
                        }
                    },
                    Some(code) => {
                        let ghost sb = SourcedBindingV {
                            source: all[done].trigger,
                            trigger: KeyTrigger { mods, code },
                            action: all[done].action,
                        };
                        assert(resolve_one(all[done], km) == Ok::<KeyTrigger, BindFailureV>(
                            KeyTrigger { mods, code },
                        ));
                        res.push(
                            SourcedBinding {
                                source: b.trigger,
                                trigger: KeyTrigger { mods, code },
                                action: b.action,
                            },
                        );
                        proof {
                            assert(sourced_views(res@) =~= res_v + seq![sb]);
                            assert(failures_of(all.take(done + 1), km) =~= failures_of(
                                all.take(done),
                                km,
                            ));
                        }
                    },
                }
            },
        }
        proof {
            done = done + 1;
        }
    }
    proof {
        assert(all.take(done) =~= all);
        assert(failure_views(fails@).len() == fails@.len());
    }
    if fails.len() > 0 {
        Err(fails)
    } else {
        assert(failures_of(all, km) =~= Seq::empty());
        Ok(res)
    }
}

/// First index at or after `i` whose resolved trigger equals `tr`, if any.
pub open spec fn find_resolved_from(r: Seq<SourcedBindingV>, tr: KeyTrigger, i: int) -> Option<int>
    decreases r.len() - i,
{
    if i < 0 || i >= r.len() {
        None
    } else if r[i].trigger == tr {
        Some(i)
    } else {
        find_resolved_from(r, tr, i + 1)
    }
}

/// What [`find_resolved_from`] returns: the first match at or after `i`.
pub proof fn lemma_find_resolved_from_props(r: Seq<SourcedBindingV>, tr: KeyTrigger, i: int)
    requires
        0 <= i <= r.len(),
    ensures
        match find_resolved_from(r, tr, i) {
            Some(j) => i <= j < r.len() && r[j].trigger == tr && (forall|k: int|
                i <= k < j ==> r[k].trigger != tr),
            None => forall|k: int| i <= k < r.len() ==> r[k].trigger != tr,
        },
    decreases r.len() - i,
{
    if i < r.len() && r[i].trigger != tr {
        lemma_find_resolved_from_props(r, tr, i + 1);
    }
}

/// All pairs of *distinct* trigger strings that resolve to the same
/// physical trigger: for each entry that collides with an earlier one, the
/// pair (first colliding source, this source), in entry order.
pub open spec fn collisions_of(r: Seq<SourcedBindingV>) -> Seq<(Seq<char>, Seq<char>)>
    decreases r.len(),
{
    if r.len() == 0 {
        Seq::empty()
    } else {
        collisions_of(r.drop_last()) + match find_resolved_from(
            r.drop_last(),
            r.last().trigger,
            0,
        ) {
            Some(i) => seq![(r.drop_last()[i].source, r.last().source)],
            None => Seq::empty(),
        }
    }
}

/// No two entries resolve to the same trigger.
pub open spec fn unique_resolved(r: Seq<SourcedBindingV>) -> bool {
    forall|i: int, j: int| 0 <= i < j < r.len() ==> r[i].trigger != r[j].trigger
}

/// An empty collision list means the resolved triggers are pairwise
/// distinct.
pub proof fn lemma_no_collisions_unique(r: Seq<SourcedBindingV>)
    requires
        collisions_of(r).len() == 0,
    ensures
        unique_resolved(r),
    decreases r.len(),
{
    if r.len() > 0 {
        let prefix = r.drop_last();
        lemma_no_collisions_unique(prefix);
        lemma_find_resolved_from_props(prefix, r.last().trigger, 0);
        assert forall|i: int, j: int| 0 <= i < j < r.len() implies r[i].trigger != r[j].trigger by {
            if j < r.len() - 1 {
                assert(prefix[i] == r[i] && prefix[j] == r[j]);
            } else {
                assert(prefix[i] == r[i]);
            }
        }
    }
}

/// The views of a sequence of source-string pairs.
pub open spec fn pair_views(s: Seq<(String, String)>) -> Seq<(Seq<char>, Seq<char>)> {
    s.map_values(|p: (String, String)| (p.0@, p.1@))
}

/// Scan the resolved entries for pairs of distinct trigger strings that
/// resolved to the same physical trigger.
fn find_collisions(res: &Vec<SourcedBinding>) -> (r: Vec<(String, String)>)
    ensures
        pair_views(r@) == collisions_of(sourced_views(res@)),
{
    let ghost rv = sourced_views(res@);
    let mut out: Vec<(String, String)> = Vec::new();
    let mut j: usize = 0;
    assert(pair_views(out@) =~= collisions_of(rv.take(0)));
    while j < res.len()
        invariant
            0 <= j <= res.len(),
            rv == sourced_views(res@),
            rv.len() == res@.len(),
            pair_views(out@) == collisions_of(rv.take(j as int)),
        decreases res.len() - j,
    {
        let ghost out_v = pair_views(out@);
        let ghost prefix = rv.take(j as int);
        proof {
            assert(rv.take(j + 1).drop_last() =~= prefix);
            assert(rv.take(j + 1).last() == rv[j as int]);
        }
        let mut i: usize = 0;
        let mut hit: Option<usize> = None;
        while i < j && hit.is_none()
            invariant
                0 <= i <= j < res.len(),
                rv == sourced_views(res@),
                rv.len() == res@.len(),
                prefix == rv.take(j as int),
                match hit {
                    None => find_resolved_from(prefix, rv[j as int].trigger, 0)
                        == find_resolved_from(prefix, rv[j as int].trigger, i as int),
                    Some(i0) => find_resolved_from(prefix, rv[j as int].trigger, 0) == Some(
                        i0 as int,
                    ) && i0 < j,
                },
            decreases j - i,
        {
            assert(prefix[i as int] == rv[i as int]);
            assert(rv[i as int] == res@[i as int]@);
            assert(rv[j as int] == res@[j as int]@);
            if res[i].trigger == res[j].trigger {
                hit = Some(i);
            }
            i = i + 1;
        }
        match hit {
            Some(i0) => {
                assert(find_resolved_from(prefix, rv[j as int].trigger, 0) == Some(i0 as int));
                let first = res[i0].source.clone();
                let second = res[j].source.clone();
                proof {
                    assert(rv[i0 as int] == res@[i0 as int]@);
                    assert(rv[j as int] == res@[j as int]@);
                }
                out.push((first, second));
                proof {
                    assert(pair_views(out@) =~= out_v + seq![
                        (prefix[i0 as int].source, rv[j as int].source),
                    ]);
                    assert(pair_views(out@) == collisions_of(rv.take(j + 1)));
                }
            },
            None => {
                assert(find_resolved_from(prefix, rv[j as int].trigger, 0) is None);
                proof {
                    assert(collisions_of(rv.take(j + 1)) =~= collisions_of(prefix));
                }
            },
        }
        j = j + 1;
    }
    assert(rv.take(rv.len() as int) =~= rv);
    out
}

/// One entry of the finalized key binding table.
#[derive(Clone, Debug, PartialEq, Eq)]
pub struct ResolvedBinding {
    /// The resolved trigger.
    pub trigger: KeyTrigger,
    /// The action the trigger dispatches to.
    pub action: Action,
}

/// Spec-level mirror of [`ResolvedBinding`].
pub struct ResolvedBindingV {
    /// The resolved trigger.
    pub trigger: KeyTrigger,
    /// The bound action.
    pub action: ActionV,
}

impl View for ResolvedBinding {
    type V = ResolvedBindingV;

    open spec fn view(&self) -> ResolvedBindingV {
        ResolvedBindingV { trigger: self.trigger, action: self.action@ }
    }
}

/// The table entries described by a sequence of resolved entries, source
/// strings dropped.
pub open spec fn table_of(r: Seq<SourcedBindingV>) -> Seq<ResolvedBindingV> {
    r.map_values(|b: SourcedBindingV| ResolvedBindingV { trigger: b.trigger, action: b.action })
}

/// Well-formedness of a key table: every trigger maps to exactly one
/// action, i.e. the triggers are pairwise distinct.
pub open spec fn table_wf(t: Seq<ResolvedBindingV>) -> bool {
    forall|i: int, j: int| 0 <= i < j < t.len() ==> t[i].trigger != t[j].trigger
}

/// First index at or after `i` whose trigger equals `tr`, if any.
pub open spec fn table_find_from(t: Seq<ResolvedBindingV>, tr: KeyTrigger, i: int) -> Option<int>
    decreases t.len() - i,
{
    if i < 0 || i >= t.len() {
        None
    } else if t[i].trigger == tr {
        Some(i)
    } else {
        table_find_from(t, tr, i + 1)
    }
}

/// The action the table dispatches the trigger to, if the trigger is bound.
pub open spec fn table_lookup(t: Seq<ResolvedBindingV>, tr: KeyTrigger) -> Option<ActionV> {
    match table_find_from(t, tr, 0) {
        Some(i) => Some(t[i].action),
        None => None,
    }
}

/// The finalized key binding table: a mapping from resolved triggers to
/// actions, keys unique, built once and read-only thereafter.
#[derive(Debug, PartialEq, Eq)]
pub struct KeyTable {
    entries: Vec<ResolvedBinding>,
}

impl View for KeyTable {
    type V = Seq<ResolvedBindingV>;

    closed spec fn view(&self) -> Seq<ResolvedBindingV> {
        self.entries@.map_values(|b: ResolvedBinding| b@)
    }
}

impl KeyTable {
    /// The number of distinct triggers bound by the table.
    pub fn len(&self) -> (n: usize)
        ensures
            n == self@.len(),
    {
        self.entries.len()
    }

    /// The trigger of the entry at the given index.
    pub fn trigger_at(&self, i: usize) -> (t: KeyTrigger)
        requires
            i < self@.len(),
        ensures
            t == self@[i as int].trigger,
    {
        self.entries[i].trigger
    }

    /// The action of the entry at the given index.
    pub fn action_at(&self, i: usize) -> (a: &Action)
        requires
            i < self@.len(),
        ensures
            a@ == self@[i as int].action,
    {
        &self.entries[i].action
    }

    /// The action dispatched for the given trigger, if the trigger is
    /// bound.
    pub fn lookup(&self, tr: KeyTrigger) -> (r: Option<&Action>)
        ensures
            match r {
                Some(a) => table_lookup(self@, tr) == Some(a@),
                None => table_lookup(self@, tr) is None,
            },
    {
        let ghost tv = self@;
        let mut i: usize = 0;
        while i < self.entries.len()
            invariant
                0 <= i <= self.entries.len(),
                tv == self@,
                tv.len() == self.entries@.len(),
                table_find_from(tv, tr, 0) == table_find_from(tv, tr, i as int),
            decreases self.entries.len() - i,
        {
            assert(tv[i as int] == self.entries@[i as int]@);
            if self.entries[i].trigger == tr {
                return Some(&self.entries[i].action);
            }
            i = i + 1;
        }
        None
    }
}

/// The reportable startup failure of the binding-table builder.
#[derive(Clone, Debug, PartialEq, Eq)]
pub enum BindError {
    /// The workspace-tag list was empty; at least one tag is required.
    EmptyTags,
    /// One or more trigger strings failed grammar parsing or host-keymap
    /// resolution; every failing entry is listed.
    Unresolved {
        /// All resolution failures, in entry order.
        failures: Vec<BindFailure>,
    },
    /// Two or more distinct trigger strings resolved to the same physical
    /// trigger; every colliding pair is listed.
    Ambiguous {
        /// The colliding trigger-string pairs, in entry order.
        conflicts: Vec<(String, String)>,
    },
}

/// Spec-level mirror of [`BindError`].
pub enum BindErrorV {
    /// Mirror of [`BindError::EmptyTags`].
    EmptyTags,
    /// Mirror of [`BindError::Unresolved`].
    Unresolved {
        /// All resolution failures, in entry order.
        failures: Seq<BindFailureV>,
    },
    /// Mirror of [`BindError::Ambiguous`].
    Ambiguous {
        /// The colliding trigger-string pairs, in entry order.
        conflicts: Seq<(Seq<char>, Seq<char>)>,
    },
}

impl View for BindError {
    type V = BindErrorV;

    open spec fn view(&self) -> BindErrorV {
        match self {
            BindError::EmptyTags => BindErrorV::EmptyTags,
            BindError::Unresolved { failures } => BindErrorV::Unresolved {
                failures: failure_views(failures@),
            },
            BindError::Ambiguous { conflicts } => BindErrorV::Ambiguous {
                conflicts: pair_views(conflicts@),
            },
        }
    }
}

/// The literal entries followed by the generated per-workspace families.
pub open spec fn expanded_entries(lit: Seq<RawBindingV>, tags: Seq<Seq<char>>) -> Seq<
    RawBindingV,
> {
    lit + generated_entries(tags)
}

/// The expanded entry list after last-write-wins normalization.
pub open spec fn normalized_entries(lit: Seq<RawBindingV>, tags: Seq<Seq<char>>) -> Seq<
    RawBindingV,
> {
    dedup_entries(expanded_entries(lit, tags))
}

/// Build the finalized key binding table.
///
/// The literal entries are extended with two generated entries per
/// workspace tag (`M-{t}` focuses tag `t`, `M-S-{t}` moves the focused
/// window to it), duplicates of one trigger string are settled
/// last-write-wins, every trigger string is parsed and its key name
/// resolved against the keymap, and the result is checked for distinct
/// trigger strings that resolve to the same physical trigger.
///
/// Success is owed exactly when the tag list is non-empty, every entry
/// resolves, and no two entries collide; each error case reports every
/// offending entry, not just the first.
pub fn build_key_table(
    literal_entries: Vec<RawBinding>,
    workspace_tags: &Vec<String>,
    keymap: &Vec<KeyMapping>,
) -> (r: Result<KeyTable, BindError>)
    ensures
        ({
            let tags = tag_views(workspace_tags@);
            let dd = normalized_entries(binding_views(literal_entries@), tags);
            let km = keymap_views(keymap@);
            let fs = failures_of(dd, km);
            let cs = collisions_of(resolved_of(dd, km));
            &&& (tags.len() == 0 ==> (r matches Err(e) && e@ == BindErrorV::EmptyTags))
            &&& (tags.len() > 0 && fs.len() > 0 ==> (r matches Err(e) && e@ == (
            BindErrorV::Unresolved { failures: fs })))
            &&& (tags.len() > 0 && fs.len() == 0 && cs.len() > 0 ==> (r matches Err(e) && e@ == (
            BindErrorV::Ambiguous { conflicts: cs })))
            &&& (tags.len() > 0 && fs.len() == 0 && cs.len() == 0 ==> (r matches Ok(t) && t@
                == table_of(resolved_of(dd, km)) && table_wf(t@)))
        }),
{
    let ghost lit = binding_views(literal_entries@);
    let ghost tags = tag_views(workspace_tags@);
    let ghost km = keymap_views(keymap@);
    assert(tags.len() == workspace_tags@.len());
    if workspace_tags.len() == 0 {
        return Err(BindError::EmptyTags);
    }
    let mut entries = literal_entries;
    let mut generated = generate_tag_bindings(workspace_tags);
    let ghost gen_v = binding_views(generated@);
    let ghost entries_v = binding_views(entries@);
    entries.append(&mut generated);
    proof {
        assert forall|k: int| 0 <= k < entries@.len() implies binding_views(entries@)[k]
            == (entries_v + gen_v)[k] by {
            if k < entries_v.len() {
                assert(binding_views(entries@)[k] == entries@[k]@);
            } else {
                assert(binding_views(entries@)[k] == entries@[k]@);
            }
        }
        assert(binding_views(entries@) =~= expanded_entries(lit, tags));
    }
    let deduped = dedup_bindings(entries);
    let ghost dd = normalized_entries(lit, tags);
    assert(binding_views(deduped@) == dd);
    match resolve_bindings(deduped, keymap) {
        Err(fails) => {
            assert(failure_views(fails@) == failures_of(dd, km));
            Err(BindError::Unresolved { failures: fails })
        },
        Ok(res) => {
            let ghost rs = resolved_of(dd, km);
            assert(sourced_views(res@) == rs);
            let conflicts = find_collisions(&res);
            let ghost cs = collisions_of(rs);
            assert(pair_views(conflicts@) == cs);
            if conflicts.len() > 0 {
                assert(pair_views(conflicts@).len() == conflicts@.len());
                return Err(BindError::Ambiguous { conflicts });
            }
            assert(cs.len() == 0);
            proof {
                lemma_no_collisions_unique(rs);
            }
            let mut rest = res;
            let mut out: Vec<ResolvedBinding> = Vec::new();
            let ghost done: int = 0;
            assert(sourced_views(rest@) =~= rs.skip(0));
            assert(out@.map_values(|b: ResolvedBinding| b@) =~= table_of(rs.take(0)));
            while rest.len() > 0
                invariant
                    0 <= done <= rs.len(),
                    sourced_views(rest@) == rs.skip(done),
                    out@.map_values(|b: ResolvedBinding| b@) == table_of(rs.take(done)),
                decreases rest.len(),
            {
                proof {
                    assert(sourced_views(rest@).len() == rest@.len());
                    assert(rs.skip(done).len() == rs.len() - done);
                }
                let ghost prev = rest@;
                let ghost out_v = out@.map_values(|b: ResolvedBinding| b@);
                let sb = rest.remove(0);
                proof {
                    assert(sourced_views(prev)[0] == prev[0]@);
                    assert(rs.skip(done)[0] == rs[done]);
                    assert(sb@ == rs[done]);
                    assert forall|k: int| 0 <= k < rest@.len() implies sourced_views(rest@)[k]
                        == rs.skip(done + 1)[k] by {
                        assert(rest@[k] == prev[k + 1]);
                        assert(sourced_views(prev)[k + 1] == prev[k + 1]@);
                        assert(rs.skip(done)[k + 1] == rs[done + 1 + k]);
                    }
                    assert(sourced_views(rest@) =~= rs.skip(done + 1));
                }
                out.push(ResolvedBinding { trigger: sb.trigger, action: sb.action });
                proof {
                    assert(out@.map_values(|b: ResolvedBinding| b@) =~= out_v + seq![
                        ResolvedBindingV { trigger: rs[done].trigger, action: rs[done].action },
                    ]);
                    assert(table_of(rs.take(done + 1)) =~= out_v + seq![
                        ResolvedBindingV { trigger: rs[done].trigger, action: rs[done].action },
                    ]);
                    done = done + 1;
                }
            }
            proof {
                assert(rs.take(done) =~= rs);
            }
            let table = KeyTable { entries: out };
            proof {
                assert(table@ == table_of(rs));
                assert forall|i: int, j: int| 0 <= i < j < table@.len() implies table@[i].trigger
                    != table@[j].trigger by {
                    assert(table@[i].trigger == rs[i].trigger);
                    assert(table@[j].trigger == rs[j].trigger);
                }
            }
            Ok(table)
        },
    }
}

/// A mouse button identifier.
#[derive(Clone, Copy, Debug, PartialEq, Eq, Hash, Structural)]
pub enum MouseButton {
    /// The left button.
    Left,
    /// The middle button.
    Middle,
    /// The right button.
    Right,
    /// Scrolling up.
    ScrollUp,
    /// Scrolling down.
    ScrollDown,
}

/// A canonical mouse trigger: one button plus a modifier set.
#[derive(Clone, Copy, Debug, PartialEq, Eq, Hash, Structural)]
pub struct MouseTrigger {
    /// The button.
    pub button: MouseButton,
    /// The modifiers that must be held.
    pub mods: ModSet,
}

/// A literal mouse binding: a button, an unordered list of modifier flags
/// and an action.
#[derive(Clone, Debug, PartialEq, Eq)]
pub struct RawMouseBinding {
    /// The button.
    pub button: MouseButton,
    /// The modifier flags, in any order; duplicates are harmless.
    pub modifiers: Vec<Modifier>,
    /// The action the chord is bound to.
    pub action: MouseAction,
}

/// Spec-level mirror of [`RawMouseBinding`].
pub struct RawMouseBindingV {
    /// The button.
    pub button: MouseButton,
    /// The modifier flags as listed.
    pub modifiers: Seq<Modifier>,
    /// The bound action.
    pub action: MouseAction,
}

impl View for RawMouseBinding {
    type V = RawMouseBindingV;

    open spec fn view(&self) -> RawMouseBindingV {
        RawMouseBindingV { button: self.button, modifiers: self.modifiers@, action: self.action }
    }
}

/// The views of a sequence of raw mouse bindings.
pub open spec fn mouse_entry_views(s: Seq<RawMouseBinding>) -> Seq<RawMouseBindingV> {
    s.map_values(|b: RawMouseBinding| b@)
}

/// The canonical modifier set described by a listed modifier sequence:
/// only membership matters, order and repetition do not.
pub open spec fn mods_of(list: Seq<Modifier>) -> ModSet {
    ModSet { meta: list.contains(Modifier::Meta), shift: list.contains(Modifier::Shift) }
}

/// Membership in a one-longer prefix: the old members plus the new element.
proof fn lemma_take_contains(s: Seq<Modifier>, m: Modifier, i: int)
    requires
        0 <= i < s.len(),
    ensures
        s.take(i + 1).contains(m) <==> (s.take(i).contains(m) || s[i] == m),
{
    let t0 = s.take(i);
    let t1 = s.take(i + 1);
    if t0.contains(m) {
        let k = choose|k: int| 0 <= k < t0.len() && t0[k] == m;
        assert(t1[k] == m);
    }
    if s[i] == m {
        assert(t1[i] == m);
    }
    if t1.contains(m) {
        let k = choose|k: int| 0 <= k < t1.len() && t1[k] == m;
        if k < i {
            assert(t0[k] == m);
        }
    }
}

/// Canonicalize a listed modifier sequence into a modifier set.
pub fn canon_mods(mods: &Vec<Modifier>) -> (r: ModSet)
    ensures
        r == mods_of(mods@),
{
    let mut meta = false;
    let mut shift = false;
    let mut i: usize = 0;
    assert(!mods@.take(0).contains(Modifier::Meta) && !mods@.take(0).contains(Modifier::Shift));
    while i < mods.len()
        invariant
            0 <= i <= mods.len(),
            meta == mods@.take(i as int).contains(Modifier::Meta),
            shift == mods@.take(i as int).contains(Modifier::Shift),
        decreases mods.len() - i,
    {
        match mods[i] {
            Modifier::Meta => {
                meta = true;
            },
            Modifier::Shift => {
                shift = true;
            },
        }
        proof {
            lemma_take_contains(mods@, Modifier::Meta, i as int);
            lemma_take_contains(mods@, Modifier::Shift, i as int);
        }
        i = i + 1;
    }
    assert(mods@.take(mods@.len() as int) =~= mods@);
    ModSet { meta, shift }
}

/// The canonical (trigger, action) pair of one raw mouse binding.
pub open spec fn canon_of(b: RawMouseBindingV) -> (MouseTrigger, MouseAction) {
    (MouseTrigger { button: b.button, mods: mods_of(b.modifiers) }, b.action)
}

/// The canonical pairs of a raw mouse binding list, in order.
pub open spec fn canon_entries(s: Seq<RawMouseBindingV>) -> Seq<(MouseTrigger, MouseAction)> {
    s.map_values(|b: RawMouseBindingV| canon_of(b))
}

/// First index at or after `i` whose trigger equals `tr`, if any.
pub open spec fn mouse_find_from(
    t: Seq<(MouseTrigger, MouseAction)>,
    tr: MouseTrigger,
    i: int,
) -> Option<int>
    decreases t.len() - i,
{
    if i < 0 || i >= t.len() {
        None
    } else if t[i].0 == tr {
        Some(i)
    } else {
        mouse_find_from(t, tr, i + 1)
    }
}

/// Inserts one canonical pair with map semantics (last write wins).
pub open spec fn mouse_insert(
    t: Seq<(MouseTrigger, MouseAction)>,
    e: (MouseTrigger, MouseAction),
) -> Seq<(MouseTrigger, MouseAction)> {
    match mouse_find_from(t, e.0, 0) {
        Some(i) => t.update(i, e),
        None => t.push(e),
    }
}

/// Normalizes canonical pairs into a duplicate-free table, last write wins.
pub open spec fn mouse_dedup(s: Seq<(MouseTrigger, MouseAction)>) -> Seq<
    (MouseTrigger, MouseAction),
>
    decreases s.len(),
{
    if s.len() == 0 {
        Seq::empty()
    } else {
        mouse_insert(mouse_dedup(s.drop_last()), s.last())
    }
}

/// The finalized mouse table described by a raw mouse binding list.
pub open spec fn mouse_table_of(s: Seq<RawMouseBindingV>) -> Seq<(MouseTrigger, MouseAction)> {
    mouse_dedup(canon_entries(s))
}

/// First-match lookup in a mouse table.
pub open spec fn mouse_lookup(t: Seq<(MouseTrigger, MouseAction)>, tr: MouseTrigger) -> Option<
    MouseAction,
> {
    match mouse_find_from(t, tr, 0) {
        Some(i) => Some(t[i].1),
        None => None,
    }
}

/// The finalized mouse binding table: canonical mouse triggers mapped to
/// actions, keys unique, built once and read-only thereafter.
#[derive(Clone, Debug, PartialEq, Eq)]
pub struct MouseTable {
    entries: Vec<(MouseTrigger, MouseAction)>,
}

impl View for MouseTable {
    type V = Seq<(MouseTrigger, MouseAction)>;

    closed spec fn view(&self) -> Seq<(MouseTrigger, MouseAction)> {
        self.entries@
    }
}

impl MouseTable {
    /// The number of distinct triggers bound by the table.
    pub fn len(&self) -> (n: usize)
        ensures
            n == self@.len(),
    {
        self.entries.len()
    }

    /// The entry at the given index.
    pub fn entry_at(&self, i: usize) -> (e: (MouseTrigger, MouseAction))
        requires
            i < self@.len(),
        ensures
            e == self@[i as int],
    {
        self.entries[i]
    }

    /// The action dispatched for the given trigger, if the trigger is
    /// bound.
    pub fn lookup(&self, tr: MouseTrigger) -> (r: Option<MouseAction>)
        ensures
            r == mouse_lookup(self@, tr),
    {
        let mut i: usize = 0;
        while i < self.entries.len()
            invariant
                0 <= i <= self.entries.len(),
                mouse_find_from(self@, tr, 0) == mouse_find_from(self@, tr, i as int),
                self@ == self.entries@,
            decreases self.entries.len() - i,
        {
            if self.entries[i].0 == tr {
                return Some(self.entries[i].1);
            }
            i = i + 1;
        }
        None
    }
}

/// Build the finalized mouse binding table from literal entries.
///
/// Each listed modifier sequence is canonicalized into a set (order and
/// repetition are irrelevant), and duplicate (button, modifier-set) pairs
/// are settled last-write-wins. No host resolution is needed: buttons and
/// modifiers are already canonical.
pub fn build_mouse_table(entries: Vec<RawMouseBinding>) -> (r: MouseTable)
    ensures
        r@ == mouse_table_of(mouse_entry_views(entries@)),
{
    let ghost all = canon_entries(mouse_entry_views(entries@));
    let mut rest = entries;
    let mut out: Vec<(MouseTrigger, MouseAction)> = Vec::new();
    let ghost done: int = 0;
    assert(canon_entries(mouse_entry_views(rest@)) =~= all.skip(0));
    assert(out@ =~= mouse_dedup(all.take(0)));
    while rest.len() > 0
        invariant
            0 <= done <= all.len(),
            canon_entries(mouse_entry_views(rest@)) == all.skip(done),
            out@ == mouse_dedup(all.take(done)),
        decreases rest.len(),
    {
        proof {
            assert(canon_entries(mouse_entry_views(rest@)).len() == rest@.len());
            assert(all.skip(done).len() == all.len() - done);
        }
        let ghost prev = rest@;
        let b = rest.remove(0);
        let tr_set = canon_mods(&b.modifiers);
        let pair = (MouseTrigger { button: b.button, mods: tr_set }, b.action);
        proof {
            assert(canon_entries(mouse_entry_views(prev))[0] == canon_of(prev[0]@));
            assert(all.skip(done)[0] == all[done]);
            assert(pair == all[done]);
            assert forall|k: int| 0 <= k < rest@.len() implies canon_entries(
                mouse_entry_views(rest@),
            )[k] == all.skip(done + 1)[k] by {
                assert(rest@[k] == prev[k + 1]);
                assert(canon_entries(mouse_entry_views(prev))[k + 1] == canon_of(prev[k + 1]@));
                assert(all.skip(done)[k + 1] == all[done + 1 + k]);
            }
            assert(canon_entries(mouse_entry_views(rest@)) =~= all.skip(done + 1));
            assert(all.take(done + 1).drop_last() =~= all.take(done));
            assert(all.take(done + 1).last() == all[done]);
        }
        let ghost out_v = out@;
        let mut i: usize = 0;
        let mut hit: Option<usize> = None;
        while i < out.len() && hit.is_none()
            invariant
                0 <= i <= out.len(),
                match hit {
                    None => mouse_find_from(out@, pair.0, 0) == mouse_find_from(
                        out@,
                        pair.0,
                        i as int,
                    ),
                    Some(i0) => mouse_find_from(out@, pair.0, 0) == Some(i0 as int) && i0
                        < out.len(),
                },
            decreases out.len() - i,
        {
            if out[i].0 == pair.0 {
                hit = Some(i);
            }
            i = i + 1;
        }
        match hit {
            Some(i0) => {
                assert(mouse_find_from(out_v, pair.0, 0) == Some(i0 as int));
                out.set(i0, pair);
                proof {
                    assert(out@ =~= mouse_insert(out_v, all[done]));
                }
            },
            None => {
                assert(mouse_find_from(out_v, pair.0, 0) is None);
                out.push(pair);
                proof {
                    assert(out@ =~= mouse_insert(out_v, all[done]));
                }
            },
        }
        proof {
            done = done + 1;
        }
    }
    proof {
        assert(all.take(done) =~= all);
    }
    MouseTable { entries: out }
}

} // verus!
