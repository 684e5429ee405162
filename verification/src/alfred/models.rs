//! The launcher entry model: the result entries the launcher displays, their
//! icons, per-modifier-key overrides, and the fixed JSON schema they are
//! serialized into.

use vstd::prelude::*;
use vstd::string::*;
use crate::str_eq;

verus! {

/// A value in an entry's variables map: a string, or JSON null.
#[derive(Debug)]
pub enum VarValue {
    Str(String),
    Null,
}

/// The mathematical content of a variables value.
#[verifier::ext_equal]
pub ghost enum VarView {
    Str(Seq<char>),
    Null,
}

impl View for VarValue {
    type V = VarView;

    open spec fn view(&self) -> VarView {
        match self {
            VarValue::Str(s) => VarView::Str(s@),
            VarValue::Null => VarView::Null,
        }
    }
}

/// What a variables list holds, pairwise.
pub open spec fn vars_view(v: Seq<(String, VarValue)>) -> Seq<(Seq<char>, VarView)> {
    v.map_values(|p: (String, VarValue)| (p.0@, p.1@))
}

/// An icon shown beside an entry, as a path on disk.
#[derive(Debug)]
pub struct Icon {
    pub path: String,
}

/// The mathematical content of an icon.
#[verifier::ext_equal]
pub ghost struct IconView {
    pub path: Seq<char>,
}

impl View for Icon {
    type V = IconView;

    open spec fn view(&self) -> IconView {
        IconView { path: self.path@ }
    }
}

/// An owner login destined to become an icon reference.
#[derive(Debug)]
pub struct AuthorIcon(pub String);

/// What an entry does when a given modifier key is held.
#[derive(Debug)]
pub struct Modifier {
    pub arg: Option<String>,
    pub subtitle: Option<String>,
    pub variables: Option<Vec<(String, VarValue)>>,
}

/// The mathematical content of a modifier action.
#[verifier::ext_equal]
pub ghost struct ModifierView {
    pub arg: Option<Seq<char>>,
    pub subtitle: Option<Seq<char>>,
    pub variables: Option<Seq<(Seq<char>, VarView)>>,
}

impl View for Modifier {
    type V = ModifierView;

    open spec fn view(&self) -> ModifierView {
        ModifierView {
            arg: self.arg.deep_view(),
            subtitle: self.subtitle.deep_view(),
            variables: match self.variables {
                Some(v) => Some(vars_view(v@)),
                None => None,
            },
        }
    }
}

/// The per-modifier-key overrides of an entry.
#[derive(Debug)]
pub struct Modifiers {
    pub alt: Option<Modifier>,
    pub cmd: Option<Modifier>,
    pub ctrl: Option<Modifier>,
    pub fun: Option<Modifier>,
    pub shift: Option<Modifier>,
}

/// The mathematical content of the modifier overrides.
#[verifier::ext_equal]
pub ghost struct ModifiersView {
    pub alt: Option<ModifierView>,
    pub cmd: Option<ModifierView>,
    pub ctrl: Option<ModifierView>,
    pub fun: Option<ModifierView>,
    pub shift: Option<ModifierView>,
}

impl View for Modifiers {
    type V = ModifiersView;

    open spec fn view(&self) -> ModifiersView {
        ModifiersView {
            alt: opt_modifier_view(&self.alt),
            cmd: opt_modifier_view(&self.cmd),
            ctrl: opt_modifier_view(&self.ctrl),
            fun: opt_modifier_view(&self.fun),
            shift: opt_modifier_view(&self.shift),
        }
    }
}

pub open spec fn opt_modifier_view(m: &Option<Modifier>) -> Option<ModifierView> {
    match m {
        Some(x) => Some(x@),
        None => None,
    }
}

/// One selectable entry of the launcher's result list.
#[derive(Debug)]
pub struct Item {
    pub title: String,
    pub subtitle: Option<String>,
    pub uid: Option<String>,
    pub arg: String,
    pub html_url: Option<String>,
    pub matches: Option<String>,
    pub icon: Option<Icon>,
    pub variables: Option<Vec<(String, VarValue)>>,
    pub mods: Option<Modifiers>,
}

/// The mathematical content of an entry.
#[verifier::ext_equal]
pub ghost struct ItemView {
    pub title: Seq<char>,
    pub subtitle: Option<Seq<char>>,
    pub uid: Option<Seq<char>>,
    pub arg: Seq<char>,
    pub html_url: Option<Seq<char>>,
    pub matches: Option<Seq<char>>,
    pub icon: Option<IconView>,
    pub variables: Option<Seq<(Seq<char>, VarView)>>,
    pub mods: Option<ModifiersView>,
}

impl View for Item {
    type V = ItemView;

    open spec fn view(&self) -> ItemView {
        ItemView {
            title: self.title@,
            subtitle: self.subtitle.deep_view(),
            uid: self.uid.deep_view(),
            arg: self.arg@,
            html_url: self.html_url.deep_view(),
            matches: self.matches.deep_view(),
            icon: match self.icon {
                Some(ic) => Some(ic@),
                None => None,
            },
            variables: match self.variables {
                Some(v) => Some(vars_view(v@)),
                None => None,
            },
            mods: match self.mods {
                Some(m) => Some(m@),
                None => None,
            },
        }
    }
}

impl DeepView for Item {
    type V = ItemView;

    open spec fn deep_view(&self) -> ItemView {
        self.view()
    }
}

/// The launcher's whole result list.
#[derive(Debug)]
pub struct Items {
    pub items: Vec<Item>,
}

impl View for Items {
    type V = Seq<ItemView>;

    open spec fn view(&self) -> Seq<ItemView> {
        self.items.deep_view()
    }
}

// ---------------------------------------------------------------------------
// Reading an entry's owner out of its variables.
// ---------------------------------------------------------------------------

/// The string under `key`, when the first entry with that key is a string.
pub open spec fn lookup_str(m: Seq<(Seq<char>, VarView)>, key: Seq<char>) -> Option<Seq<char>>
    decreases m.len(),
{
    if m.len() == 0 {
        None
    } else if m[0].0 == key {
        match m[0].1 {
            VarView::Str(s) => Some(s),
            VarView::Null => None,
        }
    } else {
        lookup_str(m.drop_first(), key)
    }
}

/// The owner an entry's variables record, when they record one.
pub open spec fn owner_of(v: ItemView) -> Option<Seq<char>> {
    match v.variables {
        Some(m) => lookup_str(m, "owner"@),
        None => None,
    }
}

impl Item {
    /// The owner login recorded in the entry's variables, when present as a
    /// string value.
    pub fn owner(&self) -> (r: Option<String>)
        ensures
            r.deep_view() == owner_of(self@),
    {
        match &self.variables {
            None => None,
            Some(vars) => {
                let mut i: usize = 0;
                proof {
                    assert(self@.variables == Some(vars_view(vars@)));
                    assert(owner_of(self@) == lookup_str(vars_view(vars@), "owner"@));
                    assert(vars_view(vars@).skip(0) =~= vars_view(vars@));
                }
                while i < vars.len()
                    invariant
                        0 <= i <= vars.len(),
                        self@.variables == Some(vars_view(vars@)),
                        lookup_str(vars_view(vars@), "owner"@) == lookup_str(
                            vars_view(vars@).skip(i as int),
                            "owner"@,
                        ),
                    decreases vars.len() - i,
                {
                    let ghost m = vars_view(vars@).skip(i as int);
                    proof {
                        assert(m[0] == (vars@[i as int].0@, vars@[i as int].1@));
                        assert(m.drop_first() =~= vars_view(vars@).skip(i + 1));
                    }
                    if str_eq(vars[i].0.as_str(), "owner") {
                        proof {
                            assert(m[0].0 == "owner"@);
                            assert(owner_of(self@) == lookup_str(m, "owner"@));
                        }
                        return match &vars[i].1 {
                            VarValue::Str(s) => {
                                proof {
                                    assert(m[0].1 == VarView::Str(s@));
                                    assert(lookup_str(m, "owner"@) == Some(s@));
                                }
                                Some(s.clone())
                            },
                            VarValue::Null => {
                                proof {
                                    assert(m[0].1 == VarView::Null);
                                    assert(lookup_str(m, "owner"@) == None::<Seq<char>>);
                                }
                                None
                            },
                        };
                    }
                    i += 1;
                }
                proof {
                    assert(vars_view(vars@).skip(vars@.len() as int) =~= Seq::<(
                        Seq<char>,
                        VarView,
                    )>::empty());
                }
                None
            },
        }
    }
}

impl Items {
    /// The distinct owner logins across all entries, in first-seen order.
    pub fn owners(&self) -> (r: Vec<String>)
        ensures
            r.deep_view() == owners_spec(self@),
    {
        let mut out: Vec<String> = Vec::new();
        let mut i: usize = 0;
        proof {
            assert(self@.take(0) =~= Seq::<ItemView>::empty());
        }
        while i < self.items.len()
            invariant
                0 <= i <= self.items.len(),
                out.deep_view() == owners_spec(self@.take(i as int)),
            decreases self.items.len() - i,
        {
            proof {
                assert(self@.take(i + 1).drop_last() =~= self@.take(i as int));
                assert(self@.take(i + 1).last() == self@[i as int]);
            }
            match self.items[i].owner() {
                Some(owner) => {
                    if !contains_string(&out, &owner) {
                        out.push(owner);
                    }
                },
                None => {},
            }
            i += 1;
        }
        proof {
            assert(self@.take(self@.len() as int) =~= self@);
        }
        out
    }
}

/// The distinct owners of the entries, in first-seen order.
pub open spec fn owners_spec(items: Seq<ItemView>) -> Seq<Seq<char>>
    decreases items.len(),
{
    if items.len() == 0 {
        Seq::empty()
    } else {
        let prev = owners_spec(items.drop_last());
        match owner_of(items.last()) {
            Some(owner) => if prev.contains(owner) {
                prev
            } else {
                prev.push(owner)
            },
            None => prev,
        }
    }
}

/// Whether `v` holds a string equal to `s`.
fn contains_string(v: &Vec<String>, s: &String) -> (r: bool)
    ensures
        r == v.deep_view().contains(s@),
{
    let mut i: usize = 0;
    while i < v.len()
        invariant
            0 <= i <= v.len(),
            forall|k: int| 0 <= k < i ==> v.deep_view()[k] != s@,
        decreases v.len() - i,
    {
        if v[i].eq(s) {
            assert(v.deep_view()[i as int] == s@);
            return true;
        }
        i += 1;
    }
    false
}

// ---------------------------------------------------------------------------
// Icon paths.
// ---------------------------------------------------------------------------

/// The icon file name for an owner: `<owner>.png`, or the fixed placeholder
/// `octocat.png` when the owner is unknown.
pub open spec fn icon_file_spec(owner: Seq<char>) -> Seq<char> {
    if owner.len() == 0 {
        "octocat"@ + ".png"@
    } else {
        owner + ".png"@
    }
}

/// The icon path for an owner under the icon cache directory.
pub open spec fn icon_path_spec(cache_dir: Seq<char>, owner: Seq<char>) -> Seq<char> {
    cache_dir + seq!['/'] + icon_file_spec(owner)
}

impl AuthorIcon {
    /// Wraps an owner login; an empty login stands for an unknown owner.
    pub fn from_str(name: &str) -> (r: AuthorIcon)
        ensures
            r.0@ == name@,
    {
        AuthorIcon(name.to_owned())
    }

    /// The icon for this owner: `<cache_dir>/<owner>.png`, or the placeholder
    /// `<cache_dir>/octocat.png` when the owner is empty.
    pub fn into_icon(self, cache_dir: &str) -> (r: Icon)
        ensures
            r.path@ == icon_path_spec(cache_dir@, self.0@),
    {
        let mut path = cache_dir.to_owned();
        path.append("/");
        proof {
            reveal_strlit("/");
            assert("/"@ =~= seq!['/']);
        }
        if self.0.as_str().is_empty() {
            path.append("octocat");
            proof {
                assert(self.0@ =~= Seq::<char>::empty());
            }
        } else {
            path.append(self.0.as_str());
        }
        path.append(".png");
        proof {
            if self.0@.len() == 0 {
                assert(path@ =~= icon_path_spec(cache_dir@, self.0@));
            } else {
                assert(path@ =~= icon_path_spec(cache_dir@, self.0@));
            }
        }
        Icon { path }
    }
}

// ---------------------------------------------------------------------------
// The launcher's result schema: one JSON object per entry, optional fields
// left out entirely when unset, never emitted as null.
// ---------------------------------------------------------------------------

/// One lowercase hexadecimal digit.
pub open spec fn hex_digit(d: nat) -> char {
    if d == 0 {
        '0'
    } else if d == 1 {
        '1'
    } else if d == 2 {
        '2'
    } else if d == 3 {
        '3'
    } else if d == 4 {
        '4'
    } else if d == 5 {
        '5'
    } else if d == 6 {
        '6'
    } else if d == 7 {
        '7'
    } else if d == 8 {
        '8'
    } else if d == 9 {
        '9'
    } else if d == 10 {
        'a'
    } else if d == 11 {
        'b'
    } else if d == 12 {
        'c'
    } else if d == 13 {
        'd'
    } else if d == 14 {
        'e'
    } else {
        'f'
    }
}

/// How one character appears inside a JSON string: quotes and backslashes
/// escaped, control characters as their short escapes or as `\u00XX` with
/// lowercase hex, everything else as itself.
pub open spec fn esc_char(c: char) -> Seq<char> {
    if c == '"' {
        seq!['\\', '"']
    } else if c == '\\' {
        seq!['\\', '\\']
    } else if c == '\u{8}' {
        seq!['\\', 'b']
    } else if c == '\t' {
        seq!['\\', 't']
    } else if c == '\n' {
        seq!['\\', 'n']
    } else if c == '\u{c}' {
        seq!['\\', 'f']
    } else if c == '\r' {
        seq!['\\', 'r']
    } else if (c as u32) < 32 {
        seq!['\\', 'u', '0', '0', hex_digit(((c as u32) / 16) as nat), hex_digit(
            ((c as u32) % 16) as nat,
        )]
    } else {
        seq![c]
    }
}

/// A whole string escaped for JSON.
pub open spec fn json_escape(s: Seq<char>) -> Seq<char>
    decreases s.len(),
{
    if s.len() == 0 {
        Seq::empty()
    } else {
        esc_char(s[0]) + json_escape(s.drop_first())
    }
}

/// A JSON string: escaped and quoted.
pub open spec fn json_str(s: Seq<char>) -> Seq<char> {
    seq!['"'] + json_escape(s) + seq!['"']
}

/// Fields joined by commas.
pub open spec fn comma_join(fields: Seq<Seq<char>>) -> Seq<char>
    decreases fields.len(),
{
    if fields.len() == 0 {
        Seq::empty()
    } else if fields.len() == 1 {
        fields[0]
    } else {
        fields[0] + seq![','] + comma_join(fields.drop_first())
    }
}

/// A JSON object from already-rendered `"key":value` fields.
pub open spec fn json_obj(fields: Seq<Seq<char>>) -> Seq<char> {
    seq!['{'] + comma_join(fields) + seq!['}']
}

/// A variables value: a JSON string or null.
pub open spec fn json_var_value(v: VarView) -> Seq<char> {
    match v {
        VarView::Str(s) => json_str(s),
        VarView::Null => "null"@,
    }
}

/// One `"key":value` field of a variables object.
pub open spec fn json_var_field(p: (Seq<char>, VarView)) -> Seq<char> {
    json_str(p.0) + seq![':'] + json_var_value(p.1)
}

/// A variables map as a JSON object, keys in stored order.
pub open spec fn json_vars(m: Seq<(Seq<char>, VarView)>) -> Seq<char> {
    json_obj(m.map_values(|p: (Seq<char>, VarView)| json_var_field(p)))
}

/// The fields a modifier action renders, present ones only, in schema order.
pub open spec fn modifier_fields(m: ModifierView) -> Seq<Seq<char>> {
    (match m.arg {
        Some(a) => seq![json_str("arg"@) + seq![':'] + json_str(a)],
        None => Seq::empty(),
    }) + (match m.subtitle {
        Some(s) => seq![json_str("subtitle"@) + seq![':'] + json_str(s)],
        None => Seq::empty(),
    }) + (match m.variables {
        Some(v) => seq![json_str("variables"@) + seq![':'] + json_vars(v)],
        None => Seq::empty(),
    })
}

/// A modifier action as a JSON object.
pub open spec fn json_modifier(m: ModifierView) -> Seq<char> {
    json_obj(modifier_fields(m))
}

/// One optional modifier field under its key.
pub open spec fn modifier_slot(key: Seq<char>, m: Option<ModifierView>) -> Seq<Seq<char>> {
    match m {
        Some(x) => seq![json_str(key) + seq![':'] + json_modifier(x)],
        None => Seq::empty(),
    }
}

/// The modifier overrides, present ones only; the `fun` slot serializes
/// under the key `fn`.
pub open spec fn modifiers_fields(m: ModifiersView) -> Seq<Seq<char>> {
    modifier_slot("alt"@, m.alt) + modifier_slot("cmd"@, m.cmd) + modifier_slot("ctrl"@, m.ctrl)
        + modifier_slot("fn"@, m.fun) + modifier_slot("shift"@, m.shift)
}

/// The modifier overrides as a JSON object.
pub open spec fn json_modifiers(m: ModifiersView) -> Seq<char> {
    json_obj(modifiers_fields(m))
}

/// An icon as a JSON object with its path.
pub open spec fn json_icon(ic: IconView) -> Seq<char> {
    json_obj(seq![json_str("path"@) + seq![':'] + json_str(ic.path)])
}

/// The fields of one entry, mandatory `title` and `arg` always present,
/// optional fields only when set, in schema order. The search-match text
/// serializes under the key `match`.
pub open spec fn item_fields(v: ItemView) -> Seq<Seq<char>> {
    seq![json_str("title"@) + seq![':'] + json_str(v.title)] + (match v.subtitle {
        Some(s) => seq![json_str("subtitle"@) + seq![':'] + json_str(s)],
        None => Seq::empty(),
    }) + (match v.uid {
        Some(u) => seq![json_str("uid"@) + seq![':'] + json_str(u)],
        None => Seq::empty(),
    }) + seq![json_str("arg"@) + seq![':'] + json_str(v.arg)] + (match v.html_url {
        Some(u) => seq![json_str("html_url"@) + seq![':'] + json_str(u)],
        None => Seq::empty(),
    }) + (match v.matches {
        Some(q) => seq![json_str("match"@) + seq![':'] + json_str(q)],
        None => Seq::empty(),
    }) + (match v.icon {
        Some(ic) => seq![json_str("icon"@) + seq![':'] + json_icon(ic)],
        None => Seq::empty(),
    }) + (match v.variables {
        Some(m) => seq![json_str("variables"@) + seq![':'] + json_vars(m)],
        None => Seq::empty(),
    }) + (match v.mods {
        Some(m) => seq![json_str("mods"@) + seq![':'] + json_modifiers(m)],
        None => Seq::empty(),
    })
}

/// One entry as a JSON object.
pub open spec fn json_item(v: ItemView) -> Seq<char> {
    json_obj(item_fields(v))
}

/// The whole result list: one object with the single key `items` holding the
/// entries in order.
pub open spec fn json_items(items: Seq<ItemView>) -> Seq<char> {
    seq!['{'] + json_str("items"@) + seq![':'] + seq!['['] + comma_join(
        items.map_values(|v: ItemView| json_item(v)),
    ) + seq![']'] + seq!['}']
}

// ---------------------------------------------------------------------------
// Executable serializer.
// ---------------------------------------------------------------------------

fn hex_digit_char(d: u32) -> (c: char)
    requires
        d < 16,
    ensures
        c == hex_digit(d as nat),
{
    if d == 0 {
        '0'
    } else if d == 1 {
        '1'
    } else if d == 2 {
        '2'
    } else if d == 3 {
        '3'
    } else if d == 4 {
        '4'
    } else if d == 5 {
        '5'
    } else if d == 6 {
        '6'
    } else if d == 7 {
        '7'
    } else if d == 8 {
        '8'
    } else if d == 9 {
        '9'
    } else if d == 10 {
        'a'
    } else if d == 11 {
        'b'
    } else if d == 12 {
        'c'
    } else if d == 13 {
        'd'
    } else if d == 14 {
        'e'
    } else {
        'f'
    }
}

proof fn lemma_json_escape_push(a: Seq<char>, c: char)
    ensures
        json_escape(a.push(c)) == json_escape(a) + esc_char(c),
    decreases a.len(),
{
    if a.len() == 0 {
        assert(a.push(c)[0] == c);
        assert(a.push(c).drop_first() =~= Seq::<char>::empty());
        assert(json_escape(a.push(c)) == esc_char(c) + json_escape(a.push(c).drop_first()));
        assert(json_escape(Seq::<char>::empty()) =~= Seq::<char>::empty());
        assert(json_escape(a.push(c)) =~= json_escape(a) + esc_char(c));
    } else {
        assert(a.push(c)[0] == a[0]);
        assert(a.push(c).drop_first() =~= a.drop_first().push(c));
        lemma_json_escape_push(a.drop_first(), c);
        assert(esc_char(a[0]) + (json_escape(a.drop_first()) + esc_char(c)) =~= (esc_char(a[0])
            + json_escape(a.drop_first())) + esc_char(c));
    }
}

/// Appends the JSON escaping of `s`.
fn escape_into(out: &mut String, s: &str)
    ensures
        final(out)@ == old(out)@ + json_escape(s@),
{
    let n = s.unicode_len();
    let mut i: usize = 0;
    proof {
        assert(s@.take(0) =~= Seq::<char>::empty());
        assert(old(out)@ + json_escape(s@.take(0)) =~= old(out)@);
    }
    while i < n
        invariant
            0 <= i <= n,
            n == s@.len(),
            out@ == old(out)@ + json_escape(s@.take(i as int)),
        decreases n - i,
    {
        let c = s.get_char(i);
        let ghost before = out@;
        proof {
            reveal_strlit("\\\"");
            reveal_strlit("\\\\");
            reveal_strlit("\\b");
            reveal_strlit("\\t");
            reveal_strlit("\\n");
            reveal_strlit("\\f");
            reveal_strlit("\\r");
            reveal_strlit("\\u00");
        }
        if c == '"' {
            out.append("\\\"");
            proof {
                assert("\\\""@ =~= seq!['\\', '"']);
            }
        } else if c == '\\' {
            out.append("\\\\");
            proof {
                assert("\\\\"@ =~= seq!['\\', '\\']);
            }
        } else if c == '\u{8}' {
            out.append("\\b");
            proof {
                assert("\\b"@ =~= seq!['\\', 'b']);
            }
        } else if c == '\t' {
            out.append("\\t");
            proof {
                assert("\\t"@ =~= seq!['\\', 't']);
            }
        } else if c == '\n' {
            out.append("\\n");
            proof {
                assert("\\n"@ =~= seq!['\\', 'n']);
            }
        } else if c == '\u{c}' {
            out.append("\\f");
            proof {
                assert("\\f"@ =~= seq!['\\', 'f']);
            }
        } else if c == '\r' {
            out.append("\\r");
            proof {
                assert("\\r"@ =~= seq!['\\', 'r']);
            }
        } else if (c as u32) < 32 {
            out.append("\\u00");
            crate::push_char(out, hex_digit_char((c as u32) / 16));
            crate::push_char(out, hex_digit_char((c as u32) % 16));
            proof {
                assert("\\u00"@ =~= seq!['\\', 'u', '0', '0']);
                assert(out@ =~= before + esc_char(c));
            }
        } else {
            crate::push_char(out, c);
            proof {
                assert(out@ =~= before + esc_char(c));
            }
        }
        proof {
            assert(out@ =~= before + esc_char(c));
            lemma_json_escape_push(s@.take(i as int), c);
            assert(s@.take(i + 1) =~= s@.take(i as int).push(c));
            assert(out@ =~= old(out)@ + json_escape(s@.take(i + 1)));
        }
        i += 1;
    }
    proof {
        assert(s@.take(n as int) =~= s@);
    }
}

/// Renders `s` as a quoted, escaped JSON string.
fn json_string_of(s: &str) -> (r: String)
    ensures
        r@ == json_str(s@),
{
    let mut out = String::new();
    crate::push_char(&mut out, '"');
    escape_into(&mut out, s);
    crate::push_char(&mut out, '"');
    proof {
        assert(out@ =~= json_str(s@));
    }
    out
}

/// Renders one `"key":value` field from an already-rendered value.
fn key_field(key: &str, value_json: String) -> (r: String)
    ensures
        r@ == json_str(key@) + seq![':'] + value_json@,
{
    let mut out = json_string_of(key);
    crate::push_char(&mut out, ':');
    out.append(value_json.as_str());
    proof {
        assert(out@ =~= json_str(key@) + seq![':'] + value_json@);
    }
    out
}

proof fn lemma_comma_join_push(a: Seq<Seq<char>>, x: Seq<char>)
    requires
        a.len() > 0,
    ensures
        comma_join(a.push(x)) == comma_join(a) + seq![','] + x,
    decreases a.len(),
{
    let p = a.push(x);
    assert(p[0] == a[0]);
    if a.len() == 1 {
        assert(p.drop_first() =~= seq![x]);
        assert(comma_join(p.drop_first()) == x);
        assert(comma_join(p) =~= comma_join(a) + seq![','] + x);
    } else {
        assert(p.drop_first() =~= a.drop_first().push(x));
        lemma_comma_join_push(a.drop_first(), x);
        assert(comma_join(p) == a[0] + seq![','] + (comma_join(a.drop_first()) + seq![','] + x));
        assert(a[0] + seq![','] + (comma_join(a.drop_first()) + seq![','] + x) =~= (a[0] + seq![',']
            + comma_join(a.drop_first())) + seq![','] + x);
    }
}

/// Joins already-rendered fields with commas.
fn join_commas(fields: &Vec<String>) -> (r: String)
    ensures
        r@ == comma_join(fields.deep_view()),
{
    let mut out = String::new();
    let mut i: usize = 0;
    proof {
        assert(fields.deep_view().take(0) =~= Seq::<Seq<char>>::empty());
    }
    while i < fields.len()
        invariant
            0 <= i <= fields.len(),
            out@ == comma_join(fields.deep_view().take(i as int)),
        decreases fields.len() - i,
    {
        let ghost prefix = fields.deep_view().take(i as int);
        if i > 0 {
            crate::push_char(&mut out, ',');
        }
        out.append(fields[i].as_str());
        proof {
            assert(fields.deep_view().take(i + 1) =~= prefix.push(fields.deep_view()[i as int]));
            if i == 0 {
                assert(prefix.push(fields.deep_view()[0])
                    =~= seq![fields.deep_view()[0]]);
                assert(out@ =~= comma_join(fields.deep_view().take(1)));
            } else {
                lemma_comma_join_push(prefix, fields.deep_view()[i as int]);
                assert(out@ =~= comma_join(prefix) + seq![','] + fields.deep_view()[i as int]);
            }
        }
        i += 1;
    }
    proof {
        assert(fields.deep_view().take(fields.deep_view().len() as int) =~= fields.deep_view());
    }
    out
}

/// Wraps already-rendered fields into a JSON object.
fn obj_of(fields: &Vec<String>) -> (r: String)
    ensures
        r@ == json_obj(fields.deep_view()),
{
    let mut out = String::new();
    crate::push_char(&mut out, '{');
    let joined = join_commas(fields);
    out.append(joined.as_str());
    crate::push_char(&mut out, '}');
    proof {
        assert(out@ =~= json_obj(fields.deep_view()));
    }
    out
}

/// Renders a variables map as a JSON object, keys in stored order.
fn vars_to_json(vars: &Vec<(String, VarValue)>) -> (r: String)
    ensures
        r@ == json_vars(vars_view(vars@)),
{
    let mut fields: Vec<String> = Vec::new();
    let mut i: usize = 0;
    while i < vars.len()
        invariant
            0 <= i <= vars.len(),
            fields.deep_view() =~= vars_view(vars@).take(i as int).map_values(
                |p: (Seq<char>, VarView)| json_var_field(p),
            ),
        decreases vars.len() - i,
    {
        let value_json = match &vars[i].1 {
            VarValue::Str(s) => json_string_of(s.as_str()),
            VarValue::Null => {
                let null_lit = "null";
                null_lit.to_owned()
            },
        };
        proof {
            assert(value_json@ == json_var_value(vars_view(vars@)[i as int].1));
        }
        let field = key_field(vars[i].0.as_str(), value_json);
        proof {
            assert(field@ == json_var_field(vars_view(vars@)[i as int]));
        }
        fields.push(field);
        proof {
            assert(vars_view(vars@).take(i + 1).map_values(
                |p: (Seq<char>, VarView)| json_var_field(p),
            ) =~= vars_view(vars@).take(i as int).map_values(
                |p: (Seq<char>, VarView)| json_var_field(p),
            ).push(json_var_field(vars_view(vars@)[i as int])));
        }
        i += 1;
    }
    proof {
        assert(vars_view(vars@).take(vars@.len() as int) =~= vars_view(vars@));
        assert(fields.deep_view() =~= vars_view(vars@).map_values(
            |p: (Seq<char>, VarView)| json_var_field(p),
        ));
    }
    obj_of(&fields)
}

impl Modifier {
    /// This modifier action in the launcher's JSON schema; absent fields are
    /// left out.
    pub fn to_json(&self) -> (r: String)
        ensures
            r@ == json_modifier(self@),
    {
        let mut fields: Vec<String> = Vec::new();
        if let Some(a) = &self.arg {
            let f = key_field("arg", json_string_of(a.as_str()));
            fields.push(f);
        }
        if let Some(s) = &self.subtitle {
            let f = key_field("subtitle", json_string_of(s.as_str()));
            fields.push(f);
        }
        if let Some(v) = &self.variables {
            let f = key_field("variables", vars_to_json(v));
            fields.push(f);
        }
        proof {
            assert(fields.deep_view() =~= modifier_fields(self@));
        }
        obj_of(&fields)
    }
}

impl Modifiers {
    /// The modifier overrides in the launcher's JSON schema; absent slots are
    /// left out, and the `fun` slot appears under the key `fn`.
    pub fn to_json(&self) -> (r: String)
        ensures
            r@ == json_modifiers(self@),
    {
        let mut fields: Vec<String> = Vec::new();
        if let Some(m) = &self.alt {
            let f = key_field("alt", m.to_json());
            fields.push(f);
        }
        if let Some(m) = &self.cmd {
            let f = key_field("cmd", m.to_json());
            fields.push(f);
        }
        if let Some(m) = &self.ctrl {
            let f = key_field("ctrl", m.to_json());
            fields.push(f);
        }
        if let Some(m) = &self.fun {
            let f = key_field("fn", m.to_json());
            fields.push(f);
        }
        if let Some(m) = &self.shift {
            let f = key_field("shift", m.to_json());
            fields.push(f);
        }
        proof {
            assert(fields.deep_view() =~= modifiers_fields(self@));
        }
        obj_of(&fields)
    }
}

impl Icon {
    /// This icon in the launcher's JSON schema.
    pub fn to_json(&self) -> (r: String)
        ensures
            r@ == json_icon(self@),
    {
        let mut fields: Vec<String> = Vec::new();
        let f = key_field("path", json_string_of(self.path.as_str()));
        fields.push(f);
        proof {
            assert(fields.deep_view() =~= seq![
                json_str("path"@) + seq![':'] + json_str(self.path@),
            ]);
        }
        obj_of(&fields)
    }
}

impl Item {
    /// This entry in the launcher's JSON schema: `title` and `arg` always,
    /// every optional field only when set — never as null.
    #[verifier::rlimit(60)]
    pub fn to_json(&self) -> (r: String)
        ensures
            r@ == json_item(self@),
    {
        let mut fields: Vec<String> = Vec::new();
        let f = key_field("title", json_string_of(self.title.as_str()));
        fields.push(f);
        if let Some(s) = &self.subtitle {
            let f = key_field("subtitle", json_string_of(s.as_str()));
            fields.push(f);
        }
        if let Some(u) = &self.uid {
            let f = key_field("uid", json_string_of(u.as_str()));
            fields.push(f);
        }
        let f = key_field("arg", json_string_of(self.arg.as_str()));
        fields.push(f);
        if let Some(u) = &self.html_url {
            let f = key_field("html_url", json_string_of(u.as_str()));
            fields.push(f);
        }
        if let Some(q) = &self.matches {
            let f = key_field("match", json_string_of(q.as_str()));
            fields.push(f);
        }
        if let Some(ic) = &self.icon {
            let f = key_field("icon", ic.to_json());
            fields.push(f);
        }
        if let Some(v) = &self.variables {
            let f = key_field("variables", vars_to_json(v));
            fields.push(f);
        }
        if let Some(m) = &self.mods {
            let f = key_field("mods", m.to_json());
            fields.push(f);
        }
        proof {
            assert(fields.deep_view() =~= item_fields(self@));
        }
        obj_of(&fields)
    }
}

impl Items {
    /// The whole result list in the launcher's JSON schema: one object whose
    /// single key `items` holds the entries in order.
    pub fn to_json(&self) -> (r: String)
        ensures
            r@ == json_items(self@),
    {
        let mut rendered: Vec<String> = Vec::new();
        let mut i: usize = 0;
        while i < self.items.len()
            invariant
                0 <= i <= self.items.len(),
                rendered.deep_view() =~= self@.take(i as int).map_values(
                    |v: ItemView| json_item(v),
                ),
            decreases self.items.len() - i,
        {
            let f = self.items[i].to_json();
            rendered.push(f);
            proof {
                assert(self@.take(i + 1).map_values(|v: ItemView| json_item(v)) =~= self@.take(
                    i as int,
                ).map_values(|v: ItemView| json_item(v)).push(json_item(self@[i as int])));
            }
            i += 1;
        }
        proof {
            assert(self@.take(self@.len() as int) =~= self@);
        }
        let mut out = String::new();
        crate::push_char(&mut out, '{');
        let items_key = json_string_of("items");
        out.append(items_key.as_str());
        crate::push_char(&mut out, ':');
        crate::push_char(&mut out, '[');
        let joined = join_commas(&rendered);
        out.append(joined.as_str());
        crate::push_char(&mut out, ']');
        crate::push_char(&mut out, '}');
        proof {
            assert(out@ =~= json_items(self@));
        }
        out
    }
}

} // verus!
