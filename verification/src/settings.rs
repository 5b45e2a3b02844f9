//! The hook section of an agent settings file: installing and removing the
//! profiler's `PreToolUse` and `PostToolUse` hooks while keeping every other
//! setting.

use vstd::prelude::*;

verus! {

broadcast use vstd::string::to_string_from_display_ensures_for_str;

/// A JSON value as the rules below read it. Numbers keep their JSON text;
/// objects are lists of fields.
pub enum Json {
    Null,
    Bool(bool),
    Number(Seq<char>),
    Str(Seq<char>),
    Array(Seq<Json>),
    Object(Seq<(Seq<char>, Json)>),
}

/// A JSON value: numbers as their JSON text, objects as lists of fields
/// (with distinct keys when read from a file).
#[derive(Debug)]
pub enum JsonValue {
    Null,
    Bool(bool),
    Number(String),
    Str(String),
    Array(Vec<JsonValue>),
    Object(Vec<(String, JsonValue)>),
}

pub open spec fn json_model(v: JsonValue) -> Json
    decreases v,
{
    match v {
        JsonValue::Null => Json::Null,
        JsonValue::Bool(b) => Json::Bool(b),
        JsonValue::Number(n) => Json::Number(n@),
        JsonValue::Str(s) => Json::Str(s@),
        JsonValue::Array(a) => Json::Array(json_models(a@)),
        JsonValue::Object(fs) => Json::Object(field_models(fs@)),
    }
}

pub open spec fn json_models(s: Seq<JsonValue>) -> Seq<Json>
    decreases s,
{
    if s.len() == 0 {
        Seq::empty()
    } else {
        json_models(s.drop_last()).push(json_model(s.last()))
    }
}

pub open spec fn field_models(fs: Seq<(String, JsonValue)>) -> Seq<(Seq<char>, Json)>
    decreases fs,
{
    if fs.len() == 0 {
        Seq::empty()
    } else {
        field_models(fs.drop_last()).push((fs.last().0@, json_model(fs.last().1)))
    }
}

impl View for JsonValue {
    type V = Json;

    open spec fn view(&self) -> Json {
        json_model(*self)
    }
}

proof fn lemma_json_models(s: Seq<JsonValue>)
    ensures
        json_models(s).len() == s.len(),
        forall|i: int| 0 <= i < s.len() ==> #[trigger] json_models(s)[i] == json_model(s[i]),
    decreases s.len(),
{
    if s.len() > 0 {
        lemma_json_models(s.drop_last());
    }
}

proof fn lemma_field_models(fs: Seq<(String, JsonValue)>)
    ensures
        field_models(fs).len() == fs.len(),
        forall|i: int| 0 <= i < fs.len() ==> #[trigger] field_models(fs)[i] == (fs[i].0@, json_model(fs[i].1)),
    decreases fs.len(),
{
    if fs.len() > 0 {
        lemma_field_models(fs.drop_last());
    }
}

/// Position of the first field with this key at or after `i`.
pub open spec fn key_index_from(fs: Seq<(Seq<char>, Json)>, key: Seq<char>, i: int) -> Option<int>
    decreases fs.len() - i,
{
    if i < 0 || i >= fs.len() {
        None
    } else if fs[i].0 == key {
        Some(i)
    } else {
        key_index_from(fs, key, i + 1)
    }
}

/// Position of the first field with this key.
pub open spec fn key_index(fs: Seq<(Seq<char>, Json)>, key: Seq<char>) -> Option<int> {
    key_index_from(fs, key, 0)
}

/// The value of the field with this key.
pub open spec fn field(fs: Seq<(Seq<char>, Json)>, key: Seq<char>) -> Option<Json> {
    match key_index(fs, key) {
        Some(i) => Some(fs[i].1),
        None => None,
    }
}

/// The fields with the value of this key set: in place when the key is
/// there, else as a new last field.
pub open spec fn set_field(fs: Seq<(Seq<char>, Json)>, key: Seq<char>, v: Json) -> Seq<(Seq<char>, Json)> {
    match key_index(fs, key) {
        Some(i) => fs.update(i, (key, v)),
        None => fs.push((key, v)),
    }
}

/// The fields without the field of this key.
pub open spec fn remove_field(fs: Seq<(Seq<char>, Json)>, key: Seq<char>) -> Seq<(Seq<char>, Json)> {
    match key_index(fs, key) {
        Some(i) => fs.remove(i),
        None => fs,
    }
}

/// The field of an object with this key.
pub open spec fn object_field(j: Json, key: Seq<char>) -> Option<Json> {
    match j {
        Json::Object(fs) => field(fs, key),
        _ => None,
    }
}

/// `needle` occurs in `hay`.
pub open spec fn contains_text(hay: Seq<char>, needle: Seq<char>) -> bool {
    exists|i: int| 0 <= i && i + needle.len() <= hay.len() && #[trigger] hay.subrange(i, i + needle.len()) == needle
}

/// A text holds every text placed in it, wherever it stands.
pub proof fn lemma_contains_text_placed(before: Seq<char>, needle: Seq<char>, after: Seq<char>)
    ensures
        contains_text(before + needle + after, needle),
{
    let hay = before + needle + after;
    let i = before.len() as int;
    assert(hay.subrange(i, i + needle.len()) =~= needle);
}

/// A text holds a needle only where the needle stands in it between some
/// text before and some text after.
pub proof fn lemma_contains_text_placed_only(hay: Seq<char>, needle: Seq<char>)
    requires
        contains_text(hay, needle),
    ensures
        exists|before: Seq<char>, after: Seq<char>| hay == before + needle + after,
{
    let i = choose|i: int| 0 <= i && i + needle.len() <= hay.len() && #[trigger] hay.subrange(i, i + needle.len()) == needle;
    let before = hay.subrange(0, i);
    let after = hay.subrange(i + needle.len(), hay.len() as int);
    assert(hay =~= before + needle + after);
}

/// A command that runs this profiler (or its former name).
pub open spec fn names_profiler(command: Seq<char>) -> bool {
    contains_text(command, "agentprof"@) || contains_text(command, "mcp-profiler"@)
}

/// A hook whose `command` runs the profiler.
pub open spec fn is_profiler_hook(h: Json) -> bool {
    match object_field(h, "command"@) {
        Some(Json::Str(c)) => names_profiler(c),
        _ => false,
    }
}

/// Some hook of the list runs the profiler.
pub open spec fn has_profiler_hook(hs: Seq<Json>) -> bool {
    exists|i: int| 0 <= i < hs.len() && is_profiler_hook(#[trigger] hs[i])
}

/// A hook entry (matcher plus hooks) that holds a hook running the profiler.
pub open spec fn is_profiler_entry(e: Json) -> bool {
    match object_field(e, "hooks"@) {
        Some(Json::Array(hs)) => has_profiler_hook(hs),
        _ => false,
    }
}

/// The characters of a text.
fn chars_of(text: &str) -> (r: Vec<char>)
    ensures
        r@ == text@,
{
    broadcast use vstd::string::axiom_spec_iter;

    let mut v: Vec<char> = Vec::new();
    for c in it: text.chars()
        invariant
            it.seq() == text@,
            v@ == text@.take(it.index() as int),
    {
        proof {
            assert(text@.take(it.index() + 1) =~= text@.take(it.index() as int).push(c));
        }
        v.push(c);
    }
    assert(v@ =~= text@);
    v
}

/// Whether `needle` occurs in `hay`.
fn str_contains(hay: &str, needle: &str) -> (r: bool)
    ensures
        r == contains_text(hay@, needle@),
{
    let h = chars_of(hay);
    let n = chars_of(needle);
    if n.len() > h.len() {
        return false;
    }
    let mut i: usize = 0;
    while i <= h.len() - n.len()
        invariant
            h@ == hay@,
            n@ == needle@,
            n.len() <= h.len(),
            i <= h.len() - n.len() + 1,
            forall|k: int| 0 <= k < i ==> #[trigger] h@.subrange(k, k + n@.len()) != n@,
        decreases h.len() - i,
    {
        let mut j: usize = 0;
        while j < n.len() && h[i + j] == n[j]
            invariant
                h@ == hay@,
                n@ == needle@,
                i + n.len() <= h.len(),
                j <= n.len(),
                forall|t: int| 0 <= t < j ==> h@[i + t] == n@[t],
            decreases n.len() - j,
        {
            j = j + 1;
        }
        if j == n.len() {
            assert(h@.subrange(i as int, i + n@.len()) =~= n@);
            return true;
        }
        assert(h@.subrange(i as int, i + n@.len())[j as int] != n@[j as int]);
        i = i + 1;
    }
    false
}

/// Position of the first field with this key.
fn find_field(fs: &Vec<(String, JsonValue)>, key: &String) -> (r: Option<usize>)
    ensures
        r matches Some(i) ==> key_index(field_models(fs@), key@) == Some(i as int) && i < fs@.len(),
        r is None ==> key_index(field_models(fs@), key@) is None,
{
    let ghost m = field_models(fs@);
    proof {
        lemma_field_models(fs@);
    }
    let mut i: usize = 0;
    while i < fs.len()
        invariant
            i <= fs.len(),
            m == field_models(fs@),
            m.len() == fs@.len(),
            forall|k: int| 0 <= k < fs@.len() ==> #[trigger] m[k] == (fs@[k].0@, json_model(fs@[k].1)),
            key_index(m, key@) == key_index_from(m, key@, i as int),
        decreases fs.len() - i,
    {
        if fs[i].0 == *key {
            return Some(i);
        }
        i = i + 1;
    }
    None
}

/// The field of an object with this key.
fn get_field<'a>(v: &'a JsonValue, key: &String) -> (r: Option<&'a JsonValue>)
    ensures
        match r {
            Some(x) => object_field(v@, key@) == Some(x@),
            None => object_field(v@, key@) is None,
        },
{
    match v {
        JsonValue::Object(fs) => {
            proof {
                lemma_field_models(fs@);
            }
            match find_field(fs, key) {
                Some(i) => Some(&fs[i].1),
                None => None,
            }
        },
        _ => None,
    }
}

/// Whether a hook entry holds a hook that runs the profiler.
pub fn is_agentprof_hook(entry: &JsonValue) -> (r: bool)
    ensures
        r == is_profiler_entry(entry@),
{
    let hooks_key = "hooks".to_string();
    let command_key = "command".to_string();
    let hooks = match get_field(entry, &hooks_key) {
        Some(JsonValue::Array(hs)) => hs,
        _ => return false,
    };
    proof {
        lemma_json_models(hooks@);
    }
    assert(object_field(entry@, "hooks"@) == Some(Json::Array(json_models(hooks@))));
    let mut i: usize = 0;
    while i < hooks.len()
        invariant
            i <= hooks.len(),
            object_field(entry@, "hooks"@) == Some(Json::Array(json_models(hooks@))),
            command_key@ == "command"@,
            json_models(hooks@).len() == hooks@.len(),
            forall|k: int| 0 <= k < hooks@.len() ==> #[trigger] json_models(hooks@)[k] == json_model(hooks@[k]),
            forall|k: int| 0 <= k < i ==> !is_profiler_hook(#[trigger] json_models(hooks@)[k]),
        decreases hooks.len() - i,
    {
        match get_field(&hooks[i], &command_key) {
            Some(JsonValue::Str(c)) => {
                if str_contains(c.as_str(), "agentprof") || str_contains(c.as_str(), "mcp-profiler") {
                    assert(is_profiler_hook(json_models(hooks@)[i as int]));
                    assert(has_profiler_hook(json_models(hooks@)));
                    return true;
                }
            },
            _ => {},
        }
        i = i + 1;
    }
    false
}

/// The entries of a list that hold no profiler hook, in order.
pub open spec fn without_profiler(s: Seq<Json>) -> Seq<Json>
    decreases s.len(),
{
    if s.len() == 0 {
        s
    } else if is_profiler_entry(s.last()) {
        without_profiler(s.drop_last())
    } else {
        without_profiler(s.drop_last()).push(s.last())
    }
}

/// Some entry of the list holds a profiler hook.
pub open spec fn has_profiler_entry(s: Seq<Json>) -> bool {
    exists|i: int| 0 <= i < s.len() && is_profiler_entry(#[trigger] s[i])
}

/// The hook entry that runs `command` for every tool.
pub open spec fn hook_entry_model(command: Seq<char>) -> Json {
    Json::Object(
        seq![
            ("matcher"@, Json::Str("*"@)),
            ("hooks"@, Json::Array(seq![Json::Object(seq![("type"@, Json::Str("command"@)), ("command"@, Json::Str(command))])])),
        ],
    )
}

/// Why settings cannot take or lose hooks.
#[derive(Debug, PartialEq, Eq, Structural)]
pub enum SettingsError {
    /// The settings are not a JSON object.
    NotAnObject,
    /// The `hooks` setting is not a JSON object.
    HooksNotAnObject,
}

/// What installing did to the hooks of one event.
#[derive(Debug, Clone, Copy, PartialEq, Eq, Structural)]
pub enum HookChange {
    /// The profiler hook was added.
    Added,
    /// Earlier profiler hooks were replaced by the new one.
    Replaced,
}

/// The hooks of an event after installing: earlier profiler entries removed
/// and the new entry appended; anything but a list is replaced by a list of
/// the new entry alone.
pub open spec fn installed_event(old: Option<Json>, entry: Json) -> Json {
    match old {
        Some(Json::Array(a)) => Json::Array(without_profiler(a).push(entry)),
        _ => Json::Array(seq![entry]),
    }
}

/// What installing does to the hooks of an event.
pub open spec fn change_of(old: Option<Json>) -> HookChange {
    match old {
        Some(Json::Array(a)) => if has_profiler_entry(a) {
            HookChange::Replaced
        } else {
            HookChange::Added
        },
        _ => HookChange::Added,
    }
}

/// The hook section with the profiler entry installed for `event`.
pub open spec fn install_event_fields(h: Seq<(Seq<char>, Json)>, event: Seq<char>, command: Seq<char>) -> Seq<(Seq<char>, Json)> {
    set_field(h, event, installed_event(field(h, event), hook_entry_model(command)))
}

/// The hook section with the profiler entries installed for both events.
pub open spec fn installed_hooks(h: Seq<(Seq<char>, Json)>, command: Seq<char>) -> Seq<(Seq<char>, Json)> {
    install_event_fields(install_event_fields(h, "PreToolUse"@, command), "PostToolUse"@, command)
}

/// The fields of the hook section of settings: none when there is no
/// `hooks` setting; `None` when settings or hooks are not objects.
pub open spec fn hook_section(settings: Json) -> Result<Seq<(Seq<char>, Json)>, SettingsError> {
    match settings {
        Json::Object(fs) => match field(fs, "hooks"@) {
            None => Ok(Seq::empty()),
            Some(Json::Object(h)) => Ok(h),
            Some(_) => Err(SettingsError::HooksNotAnObject),
        },
        _ => Err(SettingsError::NotAnObject),
    }
}

/// Settings with the profiler hooks for `command` installed.
pub open spec fn install_result(settings: Json, command: Seq<char>) -> Result<Json, SettingsError> {
    match hook_section(settings) {
        Ok(h) => match settings {
            Json::Object(fs) => Ok(Json::Object(set_field(fs, "hooks"@, Json::Object(installed_hooks(h, command))))),
            _ => Err(SettingsError::NotAnObject),
        },
        Err(e) => Err(e),
    }
}

/// Settings with profiler hooks installed, and what happened to each event.
#[derive(Debug)]
pub struct InstallReport {
    pub settings: JsonValue,
    pub pre: HookChange,
    pub post: HookChange,
}

fn make_hook_entry(command: &String) -> (r: JsonValue)
    ensures
        r@ == hook_entry_model(command@),
{
    let hook_fields = vec![("type".to_string(), JsonValue::Str("command".to_string())), ("command".to_string(), JsonValue::Str(command.clone()))];
    proof {
        lemma_field_models(hook_fields@);
        assert(field_models(hook_fields@) =~= seq![("type"@, Json::Str("command"@)), ("command"@, Json::Str(command@))]);
    }
    let hook = JsonValue::Object(hook_fields);
    let hooks = vec![hook];
    proof {
        lemma_json_models(hooks@);
        assert(json_models(hooks@) =~= seq![json_model(hook)]);
    }
    let fields = vec![("matcher".to_string(), JsonValue::Str("*".to_string())), ("hooks".to_string(), JsonValue::Array(hooks))];
    proof {
        lemma_field_models(fields@);
        assert(field_models(fields@) =~= seq![("matcher"@, Json::Str("*"@)), ("hooks"@, json_model(JsonValue::Array(hooks)))]);
    }
    JsonValue::Object(fields)
}

/// The entries of `a` that hold no profiler hook, and whether `a` held any
/// that does.
fn remove_profiler_entries(a: Vec<JsonValue>) -> (r: (Vec<JsonValue>, bool))
    ensures
        json_models(r.0@) == without_profiler(json_models(a@)),
        r.1 == has_profiler_entry(json_models(a@)),
{
    let ghost orig = a@;
    let ghost m = json_models(orig);
    proof {
        lemma_json_models(orig);
    }
    assert(orig.len() == a.len());
    let mut rest = a;
    let mut kept: Vec<JsonValue> = Vec::new();
    let mut had = false;
    let mut k: usize = 0;
    while rest.len() > 0
        invariant
            k <= orig.len(),
            orig.len() <= usize::MAX,
            rest@ == orig.skip(k as int),
            m == json_models(orig),
            m.len() == orig.len(),
            forall|i: int| 0 <= i < orig.len() ==> #[trigger] m[i] == json_model(orig[i]),
            json_models(kept@) == without_profiler(m.take(k as int)),
            had == has_profiler_entry(m.take(k as int)),
        decreases rest.len(),
    {
        assert(rest@.len() == orig.len() - k);
        let x = rest.remove(0);
        assert(x == orig[k as int]);
        let profiler = is_agentprof_hook(&x);
        let ghost old_had = had;
        had = had || profiler;
        let ghost old_kept = kept@;
        if !profiler {
            kept.push(x);
            assert(kept@.drop_last() =~= old_kept);
        }
        proof {
            assert(m.take(k + 1).drop_last() =~= m.take(k as int));
            assert(m.take(k + 1).last() == json_model(x));
            assert(rest@ =~= orig.skip(k + 1));
            if profiler {
                assert(has_profiler_entry(m.take(k + 1))) by {
                    assert(is_profiler_entry(m.take(k + 1)[k as int]));
                }
            } else if has_profiler_entry(m.take(k + 1)) {
                let w = choose|i: int| 0 <= i < m.take(k + 1).len() && is_profiler_entry(#[trigger] m.take(k + 1)[i]);
                assert(m.take(k as int)[w] == m.take(k + 1)[w]);
            }
            if old_had {
                let w = choose|i: int| 0 <= i < m.take(k as int).len() && is_profiler_entry(#[trigger] m.take(k as int)[i]);
                assert(m.take(k + 1)[w] == m.take(k as int)[w]);
            }
        }
        k = k + 1;
    }
    proof {
        assert(m.take(k as int) =~= m);
    }
    (kept, had)
}

proof fn lemma_key_index_from(fs: Seq<(Seq<char>, Json)>, key: Seq<char>, i: int)
    requires
        0 <= i,
    ensures
        key_index_from(fs, key, i) matches Some(x) ==> i <= x < fs.len() && fs[x].0 == key,
    decreases fs.len() - i,
{
    if i < fs.len() && fs[i].0 != key {
        lemma_key_index_from(fs, key, i + 1);
    }
}

/// Field models of a list after replacing position `j` (removed, then a new
/// field inserted there).
proof fn lemma_field_models_replace(fs: Seq<(String, JsonValue)>, j: int, p: (String, JsonValue))
    requires
        0 <= j < fs.len(),
    ensures
        field_models(fs.remove(j).insert(j, p)) == field_models(fs).update(j, (p.0@, json_model(p.1))),
{
    let g = fs.remove(j).insert(j, p);
    assert(g =~= fs.update(j, p));
    lemma_field_models(g);
    lemma_field_models(fs);
    assert(field_models(g) =~= field_models(fs).update(j, (p.0@, json_model(p.1))));
}

proof fn lemma_field_models_push(fs: Seq<(String, JsonValue)>, p: (String, JsonValue))
    ensures
        field_models(fs.push(p)) == field_models(fs).push((p.0@, json_model(p.1))),
{
    assert(fs.push(p).drop_last() =~= fs);
}

proof fn lemma_json_models_push(s: Seq<JsonValue>, x: JsonValue)
    ensures
        json_models(s.push(x)) == json_models(s).push(json_model(x)),
{
    assert(s.push(x).drop_last() =~= s);
}

/// The hook section with the profiler entry for `command` installed for
/// `event`, and what happened.
fn install_event(h: Vec<(String, JsonValue)>, event: String, command: &String) -> (r: (Vec<(String, JsonValue)>, HookChange))
    ensures
        field_models(r.0@) == install_event_fields(field_models(h@), event@, command@),
        r.1 == change_of(field(field_models(h@), event@)),
{
    let ghost m = field_models(h@);
    let mut h = h;
    let entry = make_hook_entry(command);
    match find_field(&h, &event) {
        Some(j) => {
            proof {
                lemma_key_index_from(m, event@, 0);
                lemma_field_models(h@);
            }
            let ghost old_h = h@;
            let (k, v) = h.remove(j);
            assert((k, v) == old_h[j as int]);
            let ghost vm = json_model(v);
            let (new_v, change) = match v {
                JsonValue::Array(a) => {
                    let (mut kept, had) = remove_profiler_entries(a);
                    proof {
                        lemma_json_models_push(kept@, entry);
                    }
                    kept.push(entry);
                    (JsonValue::Array(kept), if had { HookChange::Replaced } else { HookChange::Added })
                },
                _ => {
                    let list = vec![entry];
                    proof {
                        lemma_json_models(list@);
                        assert(json_models(list@) =~= seq![json_model(entry)]);
                    }
                    (JsonValue::Array(list), HookChange::Added)
                },
            };
            assert(json_model(new_v) == installed_event(Some(vm), hook_entry_model(command@)));
            proof {
                lemma_field_models_replace(old_h, j as int, (k, new_v));
            }
            h.insert(j, (k, new_v));
            assert(h@ == old_h.remove(j as int).insert(j as int, (k, new_v)));
            (h, change)
        },
        None => {
            let list = vec![entry];
            proof {
                lemma_json_models(list@);
                assert(json_models(list@) =~= seq![json_model(entry)]);
                lemma_field_models_push(h@, (event, JsonValue::Array(list)));
            }
            h.push((event, JsonValue::Array(list)));
            (h, HookChange::Added)
        },
    }
}

/// Installs the profiler hook running `command` for `PreToolUse` and
/// `PostToolUse`: earlier profiler entries of those events are removed and
/// the new entry appended; every other setting stays.
pub fn install_profiler_hooks(settings: JsonValue, command: &String) -> (r: Result<InstallReport, SettingsError>)
    ensures
        r is Ok <==> install_result(settings@, command@) is Ok,
        r matches Err(e) ==> install_result(settings@, command@) == Err::<Json, SettingsError>(e),
        r matches Ok(rep) ==> {
            let h = hook_section(settings@)->Ok_0;
            &&& Ok::<Json, SettingsError>(rep.settings@) == install_result(settings@, command@)
            &&& rep.pre == change_of(field(h, "PreToolUse"@))
            &&& rep.post == change_of(field(install_event_fields(h, "PreToolUse"@, command@), "PostToolUse"@))
        },
{
    let ghost sm = settings@;
    let mut fs = match settings {
        JsonValue::Object(fs) => fs,
        _ => return Err(SettingsError::NotAnObject),
    };
    let ghost m = field_models(fs@);
    let hooks_key = "hooks".to_string();
    let ghost old_fs = fs@;
    let found = find_field(&fs, &hooks_key);
    proof {
        lemma_key_index_from(m, "hooks"@, 0);
        lemma_field_models(fs@);
    }
    let (hook_fields, pos) = match found {
        Some(i) => {
            let (k, v) = fs.remove(i);
            assert((k, v) == old_fs[i as int]);
            match v {
                JsonValue::Object(h) => (h, Some((i, k))),
                _ => return Err(SettingsError::HooksNotAnObject),
            }
        },
        None => (Vec::new(), None),
    };
    let ghost hm = field_models(hook_fields@);
    assert(hook_section(sm) == Ok::<Seq<(Seq<char>, Json)>, SettingsError>(hm));
    let (h1, pre) = install_event(hook_fields, "PreToolUse".to_string(), command);
    let (h2, post) = install_event(h1, "PostToolUse".to_string(), command);
    let hooks_value = JsonValue::Object(h2);
    match pos {
        Some((i, k)) => {
            proof {
                lemma_field_models_replace(old_fs, i as int, (k, hooks_value));
            }
            fs.insert(i, (k, hooks_value));
            assert(fs@ == old_fs.remove(i as int).insert(i as int, (k, hooks_value)));
        },
        None => {
            proof {
                lemma_field_models_push(fs@, (hooks_key, hooks_value));
            }
            fs.push((hooks_key, hooks_value));
        },
    }
    Ok(InstallReport { settings: JsonValue::Object(fs), pre, post })
}

/// The hook section with the profiler entries removed from the list of `event`.
pub open spec fn strip_event(h: Seq<(Seq<char>, Json)>, event: Seq<char>) -> Seq<(Seq<char>, Json)> {
    match field(h, event) {
        Some(Json::Array(a)) => set_field(h, event, Json::Array(without_profiler(a))),
        _ => h,
    }
}

/// Number of profiler entries in the list of `event`.
pub open spec fn profiler_entry_count(h: Seq<(Seq<char>, Json)>, event: Seq<char>) -> nat {
    match field(h, event) {
        Some(Json::Array(a)) => (a.len() - without_profiler(a).len()) as nat,
        _ => 0,
    }
}

/// A field whose value is the empty list.
pub open spec fn is_empty_list_field(p: (Seq<char>, Json)) -> bool {
    p.1 == Json::Array(Seq::<Json>::empty())
}

/// The fields whose values are not the empty list, in order.
pub open spec fn without_empty_lists(fs: Seq<(Seq<char>, Json)>) -> Seq<(Seq<char>, Json)>
    decreases fs.len(),
{
    if fs.len() == 0 {
        fs
    } else if is_empty_list_field(fs.last()) {
        without_empty_lists(fs.drop_last())
    } else {
        without_empty_lists(fs.drop_last()).push(fs.last())
    }
}

/// The keys of the fields whose values are the empty list, in order.
pub open spec fn empty_list_keys(fs: Seq<(Seq<char>, Json)>) -> Seq<Seq<char>>
    decreases fs.len(),
{
    if fs.len() == 0 {
        Seq::empty()
    } else if is_empty_list_field(fs.last()) {
        empty_list_keys(fs.drop_last()).push(fs.last().0)
    } else {
        empty_list_keys(fs.drop_last())
    }
}

/// The hook section with the profiler entries of both events removed.
pub open spec fn stripped_hooks(h: Seq<(Seq<char>, Json)>) -> Seq<(Seq<char>, Json)> {
    strip_event(strip_event(h, "PreToolUse"@), "PostToolUse"@)
}

/// Settings with the profiler hooks removed, lists left empty dropped, and
/// the hook section dropped when nothing is left in it; `None` when there is
/// no hook section (or it is not an object).
pub open spec fn uninstall_result(settings: Json) -> Result<Option<Json>, SettingsError> {
    match settings {
        Json::Object(fs) => match field(fs, "hooks"@) {
            Some(Json::Object(h)) => {
                let rest = without_empty_lists(stripped_hooks(h));
                Ok(
                    Some(
                        if rest.len() == 0 {
                            Json::Object(remove_field(fs, "hooks"@))
                        } else {
                            Json::Object(set_field(fs, "hooks"@, Json::Object(rest)))
                        },
                    ),
                )
            },
            _ => Ok(None),
        },
        _ => Err(SettingsError::NotAnObject),
    }
}

/// Settings with the profiler hooks removed, and what was removed.
#[derive(Debug)]
pub struct UninstallReport {
    pub settings: JsonValue,
    /// Profiler entries removed from the `PreToolUse` list.
    pub removed_pre: usize,
    /// Profiler entries removed from the `PostToolUse` list.
    pub removed_post: usize,
    /// Keys of hook lists that were empty and were dropped.
    pub emptied: Vec<String>,
    /// The hook section was left empty and was dropped.
    pub hooks_removed: bool,
}

proof fn lemma_without_profiler_len(s: Seq<Json>)
    ensures
        without_profiler(s).len() <= s.len(),
    decreases s.len(),
{
    if s.len() > 0 {
        lemma_without_profiler_len(s.drop_last());
    }
}

/// The hook section with profiler entries removed from the list of `event`,
/// and how many were removed.
fn strip_event_exec(h: Vec<(String, JsonValue)>, event: String) -> (r: (Vec<(String, JsonValue)>, usize))
    ensures
        field_models(r.0@) == strip_event(field_models(h@), event@),
        r.1 == profiler_entry_count(field_models(h@), event@),
{
    let ghost m = field_models(h@);
    let mut h = h;
    match find_field(&h, &event) {
        Some(j) => {
            proof {
                lemma_key_index_from(m, event@, 0);
                lemma_field_models(h@);
            }
            let ghost old_h = h@;
            let is_list = match &h[j].1 {
                JsonValue::Array(_) => true,
                _ => false,
            };
            if !is_list {
                return (h, 0);
            }
            let (k, v) = h.remove(j);
            assert((k, v) == old_h[j as int]);
            match v {
                JsonValue::Array(a) => {
                    proof {
                        lemma_json_models(a@);
                        lemma_without_profiler_len(json_models(a@));
                    }
                    let count = a.len();
                    let (kept, _) = remove_profiler_entries(a);
                    proof {
                        lemma_json_models(kept@);
                    }
                    let removed = count - kept.len();
                    let new_v = JsonValue::Array(kept);
                    proof {
                        lemma_field_models_replace(old_h, j as int, (k, new_v));
                    }
                    h.insert(j, (k, new_v));
                    assert(h@ == old_h.remove(j as int).insert(j as int, (k, new_v)));
                    (h, removed)
                },
                _ => (h, 0),
            }
        },
        None => (h, 0),
    }
}

/// The fields whose values are not empty lists, and the keys of those that are.
fn drop_empty_lists(fs: Vec<(String, JsonValue)>) -> (r: (Vec<(String, JsonValue)>, Vec<String>))
    ensures
        field_models(r.0@) == without_empty_lists(field_models(fs@)),
        r.1@.len() == empty_list_keys(field_models(fs@)).len(),
        forall|i: int| 0 <= i < r.1@.len() ==> #[trigger] r.1@[i]@ == empty_list_keys(field_models(fs@))[i],
{
    let ghost orig = fs@;
    let ghost m = field_models(orig);
    proof {
        lemma_field_models(orig);
    }
    assert(orig.len() == fs.len());
    let mut rest = fs;
    let mut kept: Vec<(String, JsonValue)> = Vec::new();
    let mut emptied: Vec<String> = Vec::new();
    let mut k: usize = 0;
    while rest.len() > 0
        invariant
            k <= orig.len(),
            orig.len() <= usize::MAX,
            rest@ == orig.skip(k as int),
            m == field_models(orig),
            m.len() == orig.len(),
            forall|i: int| 0 <= i < orig.len() ==> #[trigger] m[i] == (orig[i].0@, json_model(orig[i].1)),
            field_models(kept@) == without_empty_lists(m.take(k as int)),
            emptied@.len() == empty_list_keys(m.take(k as int)).len(),
            forall|i: int| 0 <= i < emptied@.len() ==> #[trigger] emptied@[i]@ == empty_list_keys(m.take(k as int))[i],
        decreases rest.len(),
    {
        assert(rest@.len() == orig.len() - k);
        let p = rest.remove(0);
        assert(p == orig[k as int]);
        let empty = match &p.1 {
            JsonValue::Array(a) => {
                proof {
                    lemma_json_models(a@);
                    if a@.len() == 0 {
                        assert(json_models(a@) =~= Seq::<Json>::empty());
                    }
                }
                a.len() == 0
            },
            _ => false,
        };
        assert(empty == is_empty_list_field(m[k as int]));
        let ghost old_kept = kept@;
        let ghost old_emptied = emptied@;
        proof {
            assert(m.take(k + 1).drop_last() =~= m.take(k as int));
            assert(m.take(k + 1).last() == m[k as int]);
        }
        if empty {
            emptied.push(p.0);
        } else {
            proof {
                lemma_field_models_push(kept@, p);
            }
            kept.push(p);
        }
        proof {
            assert(rest@ =~= orig.skip(k + 1));
        }
        k = k + 1;
    }
    proof {
        assert(m.take(k as int) =~= m);
    }
    (kept, emptied)
}

/// Removes the profiler hooks from the `PreToolUse` and `PostToolUse` lists,
/// drops every hook list left empty and the hook section when nothing is
/// left in it. `None` when there is no hook section object.
pub fn uninstall_profiler_hooks(settings: JsonValue) -> (r: Result<Option<UninstallReport>, SettingsError>)
    ensures
        match uninstall_result(settings@) {
            Err(e) => r == Err::<Option<UninstallReport>, SettingsError>(e),
            Ok(None) => r matches Ok(None),
            Ok(Some(j)) => r matches Ok(Some(rep)) && {
                let h = object_field(settings@, "hooks"@)->Some_0->Object_0;
                let stripped = stripped_hooks(h);
                &&& rep.settings@ == j
                &&& rep.removed_pre == profiler_entry_count(h, "PreToolUse"@)
                &&& rep.removed_post == profiler_entry_count(strip_event(h, "PreToolUse"@), "PostToolUse"@)
                &&& rep.emptied@.len() == empty_list_keys(stripped).len()
                &&& forall|i: int| 0 <= i < rep.emptied@.len() ==> #[trigger] rep.emptied@[i]@ == empty_list_keys(stripped)[i]
                &&& rep.hooks_removed == (without_empty_lists(stripped).len() == 0)
            },
        },
{
    let mut fs = match settings {
        JsonValue::Object(fs) => fs,
        _ => return Err(SettingsError::NotAnObject),
    };
    let ghost m = field_models(fs@);
    let hooks_key = "hooks".to_string();
    let ghost old_fs = fs@;
    let found = find_field(&fs, &hooks_key);
    proof {
        lemma_key_index_from(m, "hooks"@, 0);
        lemma_field_models(fs@);
    }
    let i = match found {
        Some(i) => i,
        None => return Ok(None),
    };
    let is_object = match &fs[i].1 {
        JsonValue::Object(_) => true,
        _ => false,
    };
    if !is_object {
        return Ok(None);
    }
    let (k, v) = fs.remove(i);
    assert((k, v) == old_fs[i as int]);
    let h = match v {
        JsonValue::Object(h) => h,
        _ => return Ok(None),
    };
    let (h1, removed_pre) = strip_event_exec(h, "PreToolUse".to_string());
    let (h2, removed_post) = strip_event_exec(h1, "PostToolUse".to_string());
    let (rest, emptied) = drop_empty_lists(h2);
    proof {
        lemma_field_models(rest@);
    }
    let hooks_removed = rest.len() == 0;
    if !hooks_removed {
        let hooks_value = JsonValue::Object(rest);
        proof {
            lemma_field_models_replace(old_fs, i as int, (k, hooks_value));
        }
        fs.insert(i, (k, hooks_value));
        assert(fs@ == old_fs.remove(i as int).insert(i as int, (k, hooks_value)));
    } else {
        proof {
            lemma_field_models(old_fs.remove(i as int));
            assert(field_models(fs@) =~= m.remove(i as int));
        }
    }
    Ok(Some(UninstallReport { settings: JsonValue::Object(fs), removed_pre, removed_post, emptied, hooks_removed }))
}

proof fn lemma_key_index_update(fs: Seq<(Seq<char>, Json)>, k: Seq<char>, v: Json, i: int, j: int)
    requires
        0 <= j,
        key_index_from(fs, k, j) == Some(i),
    ensures
        key_index_from(fs.update(i, (k, v)), k, j) == Some(i),
    decreases fs.len() - j,
{
    lemma_key_index_from(fs, k, j);
    if j < i {
        lemma_key_index_update(fs, k, v, i, j + 1);
    }
}

proof fn lemma_key_index_other(fs: Seq<(Seq<char>, Json)>, k: Seq<char>, v: Json, i: int, k2: Seq<char>, j: int)
    requires
        0 <= j,
        0 <= i < fs.len(),
        fs[i].0 == k,
        k2 != k,
    ensures
        key_index_from(fs.update(i, (k, v)), k2, j) == key_index_from(fs, k2, j),
    decreases fs.len() - j,
{
    if j < fs.len() {
        lemma_key_index_other(fs, k, v, i, k2, j + 1);
    }
}

proof fn lemma_key_index_push(fs: Seq<(Seq<char>, Json)>, k: Seq<char>, v: Json, k2: Seq<char>, j: int)
    requires
        0 <= j,
        key_index_from(fs, k, j) is None,
    ensures
        j <= fs.len() ==> key_index_from(fs.push((k, v)), k, j) == Some(fs.len() as int),
        k2 != k ==> key_index_from(fs.push((k, v)), k2, j) == key_index_from(fs, k2, j),
    decreases fs.len() + 1 - j,
{
    let g = fs.push((k, v));
    if j < fs.len() {
        assert(g[j] == fs[j]);
        lemma_key_index_push(fs, k, v, k2, j + 1);
    } else if j == fs.len() {
        assert(g[j] == (k, v));
        assert(key_index_from(g, k2, j + 1) is None);
        assert(key_index_from(fs, k2, j) is None);
    }
}

/// Setting a field gives it that value.
pub proof fn lemma_set_field_same(fs: Seq<(Seq<char>, Json)>, k: Seq<char>, v: Json)
    ensures
        field(set_field(fs, k, v), k) == Some(v),
{
    match key_index(fs, k) {
        Some(i) => {
            lemma_key_index_from(fs, k, 0);
            lemma_key_index_update(fs, k, v, i, 0);
        },
        None => {
            lemma_key_index_push(fs, k, v, k, 0);
        },
    }
}

/// Setting a field leaves every other field.
pub proof fn lemma_set_field_other(fs: Seq<(Seq<char>, Json)>, k: Seq<char>, v: Json, k2: Seq<char>)
    requires
        k2 != k,
    ensures
        field(set_field(fs, k, v), k2) == field(fs, k2),
{
    match key_index(fs, k) {
        Some(i) => {
            lemma_key_index_from(fs, k, 0);
            lemma_key_index_other(fs, k, v, i, k2, 0);
            lemma_key_index_from(fs, k2, 0);
        },
        None => {
            lemma_key_index_push(fs, k, v, k2, 0);
            lemma_key_index_from(fs, k2, 0);
        },
    }
}

/// Setting a field to the value it has changes nothing.
pub proof fn lemma_set_field_unchanged(fs: Seq<(Seq<char>, Json)>, k: Seq<char>, v: Json)
    requires
        field(fs, k) == Some(v),
    ensures
        set_field(fs, k, v) == fs,
{
    let i = key_index(fs, k)->Some_0;
    lemma_key_index_from(fs, k, 0);
    assert(fs.update(i, (k, v)) =~= fs);
}

proof fn lemma_without_profiler_clean(s: Seq<Json>)
    ensures
        !has_profiler_entry(without_profiler(s)),
        without_profiler(without_profiler(s)) == without_profiler(s),
    decreases s.len(),
{
    if s.len() > 0 {
        lemma_without_profiler_clean(s.drop_last());
        let w = without_profiler(s.drop_last());
        if !is_profiler_entry(s.last()) {
            assert(w.push(s.last()).drop_last() =~= w);
            assert forall|i: int| 0 <= i < w.push(s.last()).len() implies !is_profiler_entry(#[trigger] w.push(s.last())[i]) by {
                if i < w.len() {
                    assert(w.push(s.last())[i] == w[i]);
                }
            }
        }
    }
}

proof fn lemma_without_profiler_keeps_clean(s: Seq<Json>)
    requires
        !has_profiler_entry(s),
    ensures
        without_profiler(s) == s,
    decreases s.len(),
{
    if s.len() > 0 {
        assert(!is_profiler_entry(s[s.len() - 1]));
        assert forall|i: int| 0 <= i < s.drop_last().len() implies !is_profiler_entry(#[trigger] s.drop_last()[i]) by {
            assert(s.drop_last()[i] == s[i]);
        }
        lemma_without_profiler_keeps_clean(s.drop_last());
        assert(s.drop_last().push(s.last()) =~= s);
    }
}

/// The entry that runs `command` holds a profiler hook exactly when the
/// command names the profiler.
pub proof fn lemma_hook_entry_is_profiler(command: Seq<char>)
    ensures
        is_profiler_entry(hook_entry_model(command)) == names_profiler(command),
{
    reveal_strlit("matcher");
    reveal_strlit("hooks");
    reveal_strlit("type");
    reveal_strlit("command");
    let outer = seq![
        ("matcher"@, Json::Str("*"@)),
        ("hooks"@, Json::Array(seq![Json::Object(seq![("type"@, Json::Str("command"@)), ("command"@, Json::Str(command))])])),
    ];
    assert("matcher"@ != "hooks"@) by {
        assert("matcher"@[0] != "hooks"@[0]);
    }
    assert("type"@ != "command"@) by {
        assert("type"@[0] != "command"@[0]);
    }
    reveal_with_fuel(key_index_from, 3);
    assert(key_index(outer, "hooks"@) == Some(1int));
    let inner = seq![("type"@, Json::Str("command"@)), ("command"@, Json::Str(command))];
    assert(key_index(inner, "command"@) == Some(1int));
    let hs = seq![Json::Object(inner)];
    assert(is_profiler_hook(hs[0]) == names_profiler(command));
    if names_profiler(command) {
        assert(has_profiler_hook(hs));
    }
}

proof fn lemma_installed_event_stable(old: Option<Json>, entry: Json)
    requires
        is_profiler_entry(entry),
    ensures
        installed_event(Some(installed_event(old, entry)), entry) == installed_event(old, entry),
{
    match old {
        Some(Json::Array(a)) => {
            let w = without_profiler(a);
            lemma_without_profiler_clean(a);
            assert(w.push(entry).drop_last() =~= w);
            assert(w.push(entry).last() == entry);
            assert(without_profiler(w.push(entry)) == without_profiler(w));
            assert(installed_event(old, entry) == Json::Array(w.push(entry)));
            assert(installed_event(Some(Json::Array(w.push(entry))), entry) == Json::Array(without_profiler(w.push(entry)).push(entry)));
            assert(without_profiler(w) == w);
            assert(without_profiler(w.push(entry)).push(entry) == w.push(entry));
        },
        _ => {
            assert(seq![entry].drop_last() =~= Seq::<Json>::empty());
            assert(seq![entry].last() == entry);
            assert(without_profiler(Seq::<Json>::empty()) == Seq::<Json>::empty());
            assert(without_profiler(seq![entry]) == without_profiler(seq![entry].drop_last()));
            assert(without_profiler(seq![entry]) == Seq::<Json>::empty());
            assert(Seq::<Json>::empty().push(entry) =~= seq![entry]);
        },
    }
}

proof fn lemma_pre_post_keys_differ()
    ensures
        "PreToolUse"@ != "PostToolUse"@,
{
    reveal_strlit("PreToolUse");
    reveal_strlit("PostToolUse");
    assert("PreToolUse"@[1] != "PostToolUse"@[1]);
}

/// Installing twice with a command that names the profiler gives the
/// settings of installing once.
pub proof fn lemma_install_idempotent(settings: Json, command: Seq<char>)
    requires
        names_profiler(command),
        install_result(settings, command) is Ok,
    ensures
        install_result(install_result(settings, command)->Ok_0, command) == install_result(settings, command),
{
    let fs = settings->Object_0;
    let h = hook_section(settings)->Ok_0;
    let h_pre = install_event_fields(h, "PreToolUse"@, command);
    let h1 = installed_hooks(h, command);
    let fs1 = set_field(fs, "hooks"@, Json::Object(h1));
    lemma_set_field_same(fs, "hooks"@, Json::Object(h1));
    assert(hook_section(Json::Object(fs1)) == Ok::<Seq<(Seq<char>, Json)>, SettingsError>(h1));
    lemma_pre_post_keys_differ();
    // installing `PreToolUse` again changes nothing
    let e = hook_entry_model(command);
    lemma_hook_entry_is_profiler(command);
    lemma_set_field_other(h_pre, "PostToolUse"@, installed_event(field(h_pre, "PostToolUse"@), e), "PreToolUse"@);
    lemma_set_field_same(h, "PreToolUse"@, installed_event(field(h, "PreToolUse"@), e));
    assert(field(h1, "PreToolUse"@) == Some(installed_event(field(h, "PreToolUse"@), e)));
    lemma_installed_event_stable(field(h, "PreToolUse"@), e);
    lemma_set_field_unchanged(h1, "PreToolUse"@, installed_event(field(h1, "PreToolUse"@), e));
    assert(install_event_fields(h1, "PreToolUse"@, command) == h1);
    // and so does installing `PostToolUse` again
    lemma_set_field_same(h_pre, "PostToolUse"@, installed_event(field(h_pre, "PostToolUse"@), e));
    lemma_installed_event_stable(field(h_pre, "PostToolUse"@), e);
    lemma_set_field_unchanged(h1, "PostToolUse"@, installed_event(field(h1, "PostToolUse"@), e));
    assert(installed_hooks(h1, command) == h1);
    lemma_set_field_unchanged(fs1, "hooks"@, Json::Object(h1));
}

/// Installing sets the `PreToolUse` and `PostToolUse` lists of the hook
/// section to their earlier entries without profiler hooks followed by the
/// new entry, and keeps every other setting and every other hook list.
pub proof fn lemma_install_fields(settings: Json, command: Seq<char>, key: Seq<char>)
    requires
        install_result(settings, command) is Ok,
    ensures
        ({
            let h = hook_section(settings)->Ok_0;
            let result = install_result(settings, command)->Ok_0;
            let e = hook_entry_model(command);
            &&& key != "hooks"@ ==> object_field(result, key) == object_field(settings, key)
            &&& object_field(result, "hooks"@) == Some(Json::Object(installed_hooks(h, command)))
            &&& field(installed_hooks(h, command), "PreToolUse"@) == Some(installed_event(field(h, "PreToolUse"@), e))
            &&& field(installed_hooks(h, command), "PostToolUse"@) == Some(installed_event(field(h, "PostToolUse"@), e))
            &&& key != "PreToolUse"@ && key != "PostToolUse"@ ==> field(installed_hooks(h, command), key) == field(h, key)
        }),
{
    let fs = settings->Object_0;
    let h = hook_section(settings)->Ok_0;
    let e = hook_entry_model(command);
    let h_pre = install_event_fields(h, "PreToolUse"@, command);
    let h1 = installed_hooks(h, command);
    lemma_pre_post_keys_differ();
    lemma_set_field_same(fs, "hooks"@, Json::Object(h1));
    if key != "hooks"@ {
        lemma_set_field_other(fs, "hooks"@, Json::Object(h1), key);
    }
    lemma_set_field_same(h, "PreToolUse"@, installed_event(field(h, "PreToolUse"@), e));
    lemma_set_field_other(h_pre, "PostToolUse"@, installed_event(field(h_pre, "PostToolUse"@), e), "PreToolUse"@);
    lemma_set_field_same(h_pre, "PostToolUse"@, installed_event(field(h_pre, "PostToolUse"@), e));
    lemma_set_field_other(h, "PreToolUse"@, installed_event(field(h, "PreToolUse"@), e), "PostToolUse"@);
    if key != "PreToolUse"@ && key != "PostToolUse"@ {
        lemma_set_field_other(h, "PreToolUse"@, installed_event(field(h, "PreToolUse"@), e), key);
        lemma_set_field_other(h_pre, "PostToolUse"@, installed_event(field(h_pre, "PostToolUse"@), e), key);
    }
}

proof fn lemma_installed_event_count(old: Option<Json>, entry: Json)
    requires
        is_profiler_entry(entry),
    ensures
        installed_event(old, entry) matches Json::Array(a) && a.len() - without_profiler(a).len() == 1 && !has_profiler_entry(
            without_profiler(a),
        ),
{
    let x = match old {
        Some(Json::Array(a)) => without_profiler(a),
        _ => Seq::<Json>::empty(),
    };
    match old {
        Some(Json::Array(a)) => {
            lemma_without_profiler_clean(a);
        },
        _ => {},
    }
    assert(!has_profiler_entry(x));
    lemma_without_profiler_keeps_clean(x);
    assert(x.push(entry).drop_last() =~= x);
    assert(x.push(entry).last() == entry);
    assert(without_profiler(x.push(entry)) == x);
    assert(installed_event(old, entry) == Json::Array(x.push(entry))) by {
        match old {
            Some(Json::Array(a)) => {},
            _ => {
                assert(Seq::<Json>::empty().push(entry) =~= seq![entry]);
            },
        }
    }
}

/// Removing the hooks after installing them with a command that names the
/// profiler removes exactly the installed entry from each of the two lists,
/// and leaves no profiler entry in them.
pub proof fn lemma_uninstall_after_install(settings: Json, command: Seq<char>)
    requires
        names_profiler(command),
        install_result(settings, command) is Ok,
    ensures
        ({
            let installed = install_result(settings, command)->Ok_0;
            let h = object_field(installed, "hooks"@)->Some_0->Object_0;
            &&& uninstall_result(installed) is Ok
            &&& uninstall_result(installed)->Ok_0 is Some
            &&& profiler_entry_count(h, "PreToolUse"@) == 1
            &&& profiler_entry_count(strip_event(h, "PreToolUse"@), "PostToolUse"@) == 1
            &&& field(stripped_hooks(h), "PreToolUse"@) matches Some(Json::Array(a)) && !has_profiler_entry(a)
            &&& field(stripped_hooks(h), "PostToolUse"@) matches Some(Json::Array(a)) && !has_profiler_entry(a)
        }),
{
    let h0 = hook_section(settings)->Ok_0;
    let e = hook_entry_model(command);
    lemma_hook_entry_is_profiler(command);
    lemma_install_fields(settings, command, "hooks"@);
    let installed = install_result(settings, command)->Ok_0;
    let h = installed_hooks(h0, command);
    assert(object_field(installed, "hooks"@) == Some(Json::Object(h)));
    lemma_pre_post_keys_differ();
    lemma_installed_event_count(field(h0, "PreToolUse"@), e);
    lemma_installed_event_count(field(h0, "PostToolUse"@), e);
    let pre_list = installed_event(field(h0, "PreToolUse"@), e)->Array_0;
    let post_list = installed_event(field(h0, "PostToolUse"@), e)->Array_0;
    let h_pre = strip_event(h, "PreToolUse"@);
    assert(h_pre == set_field(h, "PreToolUse"@, Json::Array(without_profiler(pre_list))));
    lemma_set_field_same(h, "PreToolUse"@, Json::Array(without_profiler(pre_list)));
    lemma_set_field_other(h, "PreToolUse"@, Json::Array(without_profiler(pre_list)), "PostToolUse"@);
    assert(field(h_pre, "PostToolUse"@) == Some(Json::Array(post_list)));
    let h2 = stripped_hooks(h);
    assert(h2 == set_field(h_pre, "PostToolUse"@, Json::Array(without_profiler(post_list))));
    lemma_set_field_same(h_pre, "PostToolUse"@, Json::Array(without_profiler(post_list)));
    lemma_set_field_other(h_pre, "PostToolUse"@, Json::Array(without_profiler(post_list)), "PreToolUse"@);
}

/// The command that a hook runs: the profiler binary logging to `log_path`.
pub fn hook_command(binary: &str, log_path: &str) -> (r: String)
    ensures
        r@ == binary@ + " hook --log "@ + log_path@,
{
    let mut command = String::from_str(binary);
    command.append(" hook --log ");
    command.append(log_path);
    command
}

/// No two fields share a key, as in an object read from a file.
pub open spec fn distinct_keys(fs: Seq<(Seq<char>, Json)>) -> bool {
    forall|a: int, b: int| 0 <= a < b < fs.len() ==> (#[trigger] fs[a]).0 != (#[trigger] fs[b]).0
}

proof fn lemma_key_index_absent(fs: Seq<(Seq<char>, Json)>, k: Seq<char>, j: int)
    requires
        0 <= j,
    ensures
        key_index_from(fs, k, j) is None <==> forall|i: int| j <= i < fs.len() ==> (#[trigger] fs[i]).0 != k,
    decreases fs.len() - j,
{
    if j < fs.len() {
        lemma_key_index_absent(fs, k, j + 1);
    }
}

proof fn lemma_key_index_push_any(fs: Seq<(Seq<char>, Json)>, p: (Seq<char>, Json), k: Seq<char>, j: int)
    requires
        0 <= j <= fs.len(),
    ensures
        key_index_from(fs.push(p), k, j) == match key_index_from(fs, k, j) {
            Some(i) => Some(i),
            None => if p.0 == k {
                Some(fs.len() as int)
            } else {
                None
            },
        },
    decreases fs.len() - j,
{
    let g = fs.push(p);
    if j < fs.len() {
        assert(g[j] == fs[j]);
        lemma_key_index_push_any(fs, p, k, j + 1);
    } else {
        assert(g[j] == p);
        assert(key_index_from(g, k, j + 1) is None);
    }
}

/// Removing the empty lists of distinct fields keeps the keys distinct and
/// keeps exactly the fields whose values are not empty lists.
proof fn lemma_without_empty_lists(fs: Seq<(Seq<char>, Json)>, k: Seq<char>)
    requires
        distinct_keys(fs),
    ensures
        distinct_keys(without_empty_lists(fs)),
        field(without_empty_lists(fs), k) == match field(fs, k) {
            Some(v) => if v == Json::Array(Seq::<Json>::empty()) {
                None
            } else {
                Some(v)
            },
            None => None,
        },
        forall|i: int| 0 <= i < without_empty_lists(fs).len() ==> !is_empty_list_field(#[trigger] without_empty_lists(fs)[i]),
    decreases fs.len(),
{
    if fs.len() > 0 {
        let init = fs.drop_last();
        let p = fs.last();
        assert(distinct_keys(init));
        lemma_without_empty_lists(init, k);
        lemma_without_empty_lists(init, p.0);
        let w = without_empty_lists(init);
        assert(fs =~= init.push(p));
        lemma_key_index_push_any(init, p, k, 0);
        // the last key occurs nowhere before
        assert forall|i: int| 0 <= i < init.len() implies (#[trigger] init[i]).0 != p.0 by {
            assert(fs[i].0 != fs[fs.len() - 1].0);
        }
        lemma_key_index_absent(init, p.0, 0);
        assert(init.push(p)[init.len() as int] == p);
        if k == p.0 {
            assert(key_index(init, k) is None);
            assert(field(fs, k) == Some(p.1));
            assert(field(init, k) is None);
            assert(field(w, k) is None);
        } else {
            lemma_key_index_from(init, k, 0);
            if key_index(init, k) is Some {
                let i = key_index(init, k)->Some_0;
                assert(init.push(p)[i] == init[i]);
            }
            assert(field(fs, k) == field(init, k));
        }
        if !is_empty_list_field(p) {
            assert(w.push(p)[w.len() as int] == p);
            lemma_key_index_from(w, k, 0);
            if key_index(w, k) is Some {
                let i = key_index(w, k)->Some_0;
                assert(w.push(p)[i] == w[i]);
            }
            lemma_key_index_absent(w, p.0, 0);
            lemma_key_index_push_any(w, p, k, 0);
            assert forall|a: int, b: int| 0 <= a < b < w.push(p).len() implies (#[trigger] w.push(p)[a]).0 != (#[trigger] w.push(p)[b]).0 by {
                if b == w.len() {
                    assert(w.push(p)[a] == w[a]);
                } else {
                    assert(w.push(p)[a] == w[a]);
                    assert(w.push(p)[b] == w[b]);
                }
            }
            assert forall|i: int| 0 <= i < w.push(p).len() implies !is_empty_list_field(#[trigger] w.push(p)[i]) by {
                if i < w.len() {
                    assert(w.push(p)[i] == w[i]);
                }
            }
        }
    }
}

proof fn lemma_set_field_distinct(fs: Seq<(Seq<char>, Json)>, k: Seq<char>, v: Json)
    requires
        distinct_keys(fs),
    ensures
        distinct_keys(set_field(fs, k, v)),
{
    match key_index(fs, k) {
        Some(i) => {
            lemma_key_index_from(fs, k, 0);
            let g = fs.update(i, (k, v));
            assert forall|a: int, b: int| 0 <= a < b < g.len() implies (#[trigger] g[a]).0 != (#[trigger] g[b]).0 by {
                assert(g[a].0 == fs[a].0);
                assert(g[b].0 == fs[b].0);
            }
        },
        None => {
            lemma_key_index_absent(fs, k, 0);
            let g = fs.push((k, v));
            assert forall|a: int, b: int| 0 <= a < b < g.len() implies (#[trigger] g[a]).0 != (#[trigger] g[b]).0 by {
                assert(g[a] == fs[a]);
                if b < fs.len() {
                    assert(g[b] == fs[b]);
                }
            }
        },
    }
}

/// The value of an event's list after stripping: profiler entries removed
/// from a list, anything else as it was.
proof fn lemma_strip_event_fields(h: Seq<(Seq<char>, Json)>, event: Seq<char>, k: Seq<char>)
    ensures
        field(strip_event(h, event), k) == if k == event {
            match field(h, event) {
                Some(Json::Array(a)) => Some(Json::Array(without_profiler(a))),
                other => other,
            }
        } else {
            field(h, k)
        },
{
    match field(h, event) {
        Some(Json::Array(a)) => {
            if k == event {
                lemma_set_field_same(h, event, Json::Array(without_profiler(a)));
            } else {
                lemma_set_field_other(h, event, Json::Array(without_profiler(a)), k);
            }
        },
        _ => {},
    }
}

/// A list field whose profiler entries were removed is unchanged by
/// stripping it again.
proof fn lemma_strip_clean_event(h: Seq<(Seq<char>, Json)>, event: Seq<char>)
    requires
        field(h, event) matches Some(Json::Array(a)) ==> !has_profiler_entry(a),
    ensures
        strip_event(h, event) == h,
        profiler_entry_count(h, event) == 0,
{
    match field(h, event) {
        Some(Json::Array(a)) => {
            lemma_without_profiler_keeps_clean(a);
            lemma_set_field_unchanged(h, event, Json::Array(a));
        },
        _ => {},
    }
}

proof fn lemma_without_empty_lists_clean(fs: Seq<(Seq<char>, Json)>)
    requires
        forall|i: int| 0 <= i < fs.len() ==> !is_empty_list_field(#[trigger] fs[i]),
    ensures
        without_empty_lists(fs) == fs,
    decreases fs.len(),
{
    if fs.len() > 0 {
        assert(!is_empty_list_field(fs[fs.len() - 1]));
        assert forall|i: int| 0 <= i < fs.drop_last().len() implies !is_empty_list_field(#[trigger] fs.drop_last()[i]) by {
            assert(fs.drop_last()[i] == fs[i]);
        }
        lemma_without_empty_lists_clean(fs.drop_last());
        assert(fs.drop_last().push(fs.last()) =~= fs);
    }
}

/// Removing the hooks a second time changes nothing: either the hook
/// section is gone, or it holds no profiler entry and no empty list.
pub proof fn lemma_uninstall_idempotent(settings: Json)
    requires
        settings matches Json::Object(fs) && distinct_keys(fs),
        object_field(settings, "hooks"@) matches Some(Json::Object(h)) && distinct_keys(h),
    ensures
        uninstall_result(settings) matches Ok(Some(j)) && ({
            ||| uninstall_result(j) == Ok::<Option<Json>, SettingsError>(None)
            ||| {
                let h2 = object_field(j, "hooks"@)->Some_0->Object_0;
                &&& uninstall_result(j) == Ok::<Option<Json>, SettingsError>(Some(j))
                &&& profiler_entry_count(h2, "PreToolUse"@) == 0
                &&& profiler_entry_count(strip_event(h2, "PreToolUse"@), "PostToolUse"@) == 0
            }
        }),
{
    let fs = settings->Object_0;
    let h = object_field(settings, "hooks"@)->Some_0->Object_0;
    let pre = "PreToolUse"@;
    let post = "PostToolUse"@;
    lemma_pre_post_keys_differ();
    let h1 = strip_event(h, pre);
    let h2 = stripped_hooks(h);
    let rest = without_empty_lists(h2);
    // keys stay distinct
    match field(h, pre) {
        Some(Json::Array(a)) => lemma_set_field_distinct(h, pre, Json::Array(without_profiler(a))),
        _ => {},
    }
    match field(h1, post) {
        Some(Json::Array(a)) => lemma_set_field_distinct(h1, post, Json::Array(without_profiler(a))),
        _ => {},
    }
    assert(distinct_keys(h2));
    // the event lists of `rest` hold no profiler entry
    lemma_without_empty_lists(h2, pre);
    lemma_without_empty_lists(h2, post);
    lemma_strip_event_fields(h, pre, pre);
    lemma_strip_event_fields(h, pre, post);
    lemma_strip_event_fields(h1, post, pre);
    lemma_strip_event_fields(h1, post, post);
    match field(h, pre) {
        Some(Json::Array(a)) => lemma_without_profiler_clean(a),
        _ => {},
    }
    match field(h1, post) {
        Some(Json::Array(a)) => lemma_without_profiler_clean(a),
        _ => {},
    }
    assert(field(rest, pre) matches Some(Json::Array(a)) ==> !has_profiler_entry(a));
    assert(field(rest, post) matches Some(Json::Array(a)) ==> !has_profiler_entry(a));
    lemma_strip_clean_event(rest, pre);
    lemma_strip_clean_event(rest, post);
    assert(stripped_hooks(rest) == rest);
    lemma_without_empty_lists_clean(rest);
    if rest.len() == 0 {
        let i = key_index(fs, "hooks"@)->Some_0;
        lemma_key_index_from(fs, "hooks"@, 0);
        let g = fs.remove(i);
        assert forall|x: int| 0 <= x < g.len() implies (#[trigger] g[x]).0 != "hooks"@ by {
            if x < i {
                assert(g[x] == fs[x]);
                assert(fs[x].0 != fs[i].0);
            } else {
                assert(g[x] == fs[x + 1]);
                assert(fs[i].0 != fs[x + 1].0);
            }
        }
        lemma_key_index_absent(g, "hooks"@, 0);
    } else {
        let fs2 = set_field(fs, "hooks"@, Json::Object(rest));
        lemma_set_field_same(fs, "hooks"@, Json::Object(rest));
        lemma_set_field_unchanged(fs2, "hooks"@, Json::Object(rest));
    }
}

/// Setting a field twice leaves the second value.
proof fn lemma_set_field_twice(fs: Seq<(Seq<char>, Json)>, k: Seq<char>, v1: Json, v2: Json)
    ensures
        set_field(set_field(fs, k, v1), k, v2) == set_field(fs, k, v2),
{
    match key_index(fs, k) {
        Some(i) => {
            lemma_key_index_from(fs, k, 0);
            lemma_key_index_update(fs, k, v1, i, 0);
            assert(fs.update(i, (k, v1)).update(i, (k, v2)) =~= fs.update(i, (k, v2)));
        },
        None => {
            lemma_key_index_push(fs, k, v1, k, 0);
            assert(fs.push((k, v1)).update(fs.len() as int, (k, v2)) =~= fs.push((k, v2)));
        },
    }
}

/// Setting two different keys, the first of which is already there, gives
/// the same fields in either order.
proof fn lemma_set_field_commute(fs: Seq<(Seq<char>, Json)>, k1: Seq<char>, v1: Json, k2: Seq<char>, v2: Json)
    requires
        k1 != k2,
        key_index(fs, k1) is Some,
    ensures
        set_field(set_field(fs, k2, v2), k1, v1) == set_field(set_field(fs, k1, v1), k2, v2),
{
    let i = key_index(fs, k1)->Some_0;
    lemma_key_index_from(fs, k1, 0);
    let g1 = fs.update(i, (k1, v1));
    lemma_key_index_other(fs, k1, v1, i, k2, 0);
    match key_index(fs, k2) {
        Some(j) => {
            lemma_key_index_from(fs, k2, 0);
            lemma_key_index_other(fs, k2, v2, j, k1, 0);
            assert(fs.update(j, (k2, v2)).update(i, (k1, v1)) =~= g1.update(j, (k2, v2)));
        },
        None => {
            lemma_key_index_push(fs, k2, v2, k1, 0);
            assert(fs.push((k2, v2)).update(i, (k1, v1)) =~= g1.push((k2, v2)));
        },
    }
}

/// The fields after installing the profiler entry for `event` and removing
/// the profiler entries of that list again: the list the event had, or an
/// empty list appended where it had none.
pub open spec fn restored_event(h: Seq<(Seq<char>, Json)>, event: Seq<char>) -> Seq<(Seq<char>, Json)> {
    match key_index(h, event) {
        Some(_) => h,
        None => h.push((event, Json::Array(Seq::empty()))),
    }
}

/// The list of `event` is absent, or a list without profiler entries.
pub open spec fn clean_event_list(h: Seq<(Seq<char>, Json)>, event: Seq<char>) -> bool {
    match field(h, event) {
        None => true,
        Some(Json::Array(a)) => !has_profiler_entry(a),
        Some(_) => false,
    }
}

/// Removing the profiler entries from a list that ends in a profiler entry,
/// and had none before it, leaves the list before it.
proof fn lemma_strip_installed_list(w: Seq<Json>, e: Json)
    requires
        !has_profiler_entry(w),
        is_profiler_entry(e),
    ensures
        without_profiler(w.push(e)) == w,
{
    assert(w.push(e).drop_last() =~= w);
    assert(w.push(e).last() == e);
    lemma_without_profiler_keeps_clean(w);
}

/// Installing the profiler entry for `event` and stripping that list again
/// gives `restored_event`.
proof fn lemma_install_then_strip(h: Seq<(Seq<char>, Json)>, event: Seq<char>, e: Json)
    requires
        clean_event_list(h, event),
        is_profiler_entry(e),
    ensures
        strip_event(set_field(h, event, installed_event(field(h, event), e)), event) == restored_event(h, event),
{
    let v = installed_event(field(h, event), e);
    let g = set_field(h, event, v);
    lemma_set_field_same(h, event, v);
    match field(h, event) {
        Some(Json::Array(a)) => {
            lemma_without_profiler_keeps_clean(a);
            lemma_strip_installed_list(a, e);
            lemma_set_field_twice(h, event, v, Json::Array(a));
            lemma_set_field_unchanged(h, event, Json::Array(a));
        },
        _ => {
            assert(seq![e] =~= Seq::<Json>::empty().push(e));
            lemma_strip_installed_list(Seq::<Json>::empty(), e);
            lemma_set_field_twice(h, event, v, Json::Array(Seq::empty()));
        },
    }
}

/// Stripping a list that is there commutes with setting another key.
proof fn lemma_strip_after_set(g: Seq<(Seq<char>, Json)>, event: Seq<char>, k: Seq<char>, v: Json)
    requires
        event != k,
        key_index(g, event) is Some,
    ensures
        strip_event(set_field(g, k, v), event) == set_field(strip_event(g, event), k, v),
{
    lemma_set_field_other(g, k, v, event);
    match field(g, event) {
        Some(Json::Array(a)) => {
            lemma_set_field_commute(g, event, Json::Array(without_profiler(a)), k, v);
        },
        _ => {},
    }
}

/// Removing the empty lists after appending an empty list removes that one
/// too.
proof fn lemma_without_empty_lists_push_empty(fs: Seq<(Seq<char>, Json)>, k: Seq<char>)
    ensures
        without_empty_lists(fs.push((k, Json::Array(Seq::empty())))) == without_empty_lists(fs),
{
    assert(fs.push((k, Json::Array(Seq::empty()))).drop_last() =~= fs);
}

/// Installing the profiler hooks and removing them again gives back the
/// hook section, apart from empty lists appended for the events it had no
/// list for.
proof fn lemma_strip_installed_hooks(h: Seq<(Seq<char>, Json)>, command: Seq<char>)
    requires
        names_profiler(command),
        clean_event_list(h, "PreToolUse"@),
        clean_event_list(h, "PostToolUse"@),
    ensures
        stripped_hooks(installed_hooks(h, command)) == restored_event(restored_event(h, "PreToolUse"@), "PostToolUse"@),
{
    let pre = "PreToolUse"@;
    let post = "PostToolUse"@;
    let e = hook_entry_model(command);
    lemma_hook_entry_is_profiler(command);
    lemma_pre_post_keys_differ();
    let h1 = install_event_fields(h, pre, command);
    let vq = installed_event(field(h1, post), e);
    lemma_set_field_other(h, pre, installed_event(field(h, pre), e), post);
    assert(field(h1, post) == field(h, post));
    // the `PreToolUse` list is there once installed
    lemma_set_field_same(h, pre, installed_event(field(h, pre), e));
    lemma_key_index_from(h1, pre, 0);
    lemma_strip_after_set(h1, pre, post, vq);
    lemma_install_then_strip(h, pre, e);
    let r1 = restored_event(h, pre);
    assert(strip_event(installed_hooks(h, command), pre) == set_field(r1, post, vq));
    // `PostToolUse` is where it was
    match key_index(h, pre) {
        Some(_) => {},
        None => {
            lemma_key_index_push(h, pre, Json::Array(Seq::empty()), post, 0);
            if key_index(h, post) is Some {
                let j = key_index(h, post)->Some_0;
                lemma_key_index_from(h, post, 0);
                assert(r1[j] == h[j]);
            }
        },
    }
    assert(field(r1, post) == field(h, post));
    assert(key_index(r1, post) == key_index(h, post));
    lemma_set_field_same(r1, post, vq);
    let wq = match vq {
        Json::Array(b) => without_profiler(b),
        _ => Seq::<Json>::empty(),
    };
    assert(strip_event(set_field(r1, post, vq), post) == set_field(set_field(r1, post, vq), post, Json::Array(wq)));
    lemma_set_field_twice(r1, post, vq, Json::Array(wq));
    lemma_install_then_strip(r1, post, e);
}

/// Uninstalling after installing, with a command that names the profiler,
/// gives back the settings as they were, where those hold no profiler entry,
/// no empty hook list, a non-empty hook section if any, and lists (or
/// nothing) under `PreToolUse` and `PostToolUse`.
pub proof fn lemma_uninstall_restores(settings: Json, command: Seq<char>)
    requires
        names_profiler(command),
        settings is Object,
        match object_field(settings, "hooks"@) {
            None => true,
            Some(Json::Object(h)) => {
                &&& h.len() > 0
                &&& forall|i: int| 0 <= i < h.len() ==> !is_empty_list_field(#[trigger] h[i])
                &&& clean_event_list(h, "PreToolUse"@)
                &&& clean_event_list(h, "PostToolUse"@)
            },
            Some(_) => false,
        },
    ensures
        install_result(settings, command) is Ok,
        uninstall_result(install_result(settings, command)->Ok_0) == Ok::<Option<Json>, SettingsError>(Some(settings)),
{
    let fs = settings->Object_0;
    let pre = "PreToolUse"@;
    let post = "PostToolUse"@;
    let h = hook_section(settings)->Ok_0;
    let big = installed_hooks(h, command);
    let fs1 = set_field(fs, "hooks"@, Json::Object(big));
    lemma_set_field_same(fs, "hooks"@, Json::Object(big));
    assert(install_result(settings, command) == Ok::<Json, SettingsError>(Json::Object(fs1)));
    lemma_strip_installed_hooks(h, command);
    let r1 = restored_event(h, pre);
    let r2 = restored_event(r1, post);
    assert(without_empty_lists(r2) == without_empty_lists(r1)) by {
        if key_index(r1, post) is None {
            lemma_without_empty_lists_push_empty(r1, post);
        }
    }
    assert(without_empty_lists(r1) == without_empty_lists(h)) by {
        if key_index(h, pre) is None {
            lemma_without_empty_lists_push_empty(h, pre);
        }
    }
    match object_field(settings, "hooks"@) {
        None => {
            assert(h.len() == 0);
            assert(without_empty_lists(h) == h);
            let i = fs.len() as int;
            lemma_key_index_push(fs, "hooks"@, Json::Object(big), "hooks"@, 0);
            assert(key_index(fs1, "hooks"@) == Some(i));
            assert(fs1.remove(i) =~= fs);
        },
        Some(_) => {
            lemma_without_empty_lists_clean(h);
            lemma_set_field_twice(fs, "hooks"@, Json::Object(big), Json::Object(h));
            lemma_set_field_unchanged(fs, "hooks"@, Json::Object(h));
        },
    }
}

/// Removing the profiler entries of a list keeps exactly its other entries,
/// in order.
pub proof fn lemma_without_profiler_filters(s: Seq<Json>)
    ensures
        without_profiler(s) == s.filter(|e: Json| !is_profiler_entry(e)),
    decreases s.len(),
{
    reveal(Seq::filter);
    if s.len() > 0 {
        lemma_without_profiler_filters(s.drop_last());
    }
}

/// Removing the empty lists of a hook section keeps exactly its other
/// fields, in order.
pub proof fn lemma_without_empty_lists_filters(fs: Seq<(Seq<char>, Json)>)
    ensures
        without_empty_lists(fs) == fs.filter(|p: (Seq<char>, Json)| p.1 != Json::Array(Seq::<Json>::empty())),
    decreases fs.len(),
{
    reveal(Seq::filter);
    if fs.len() > 0 {
        lemma_without_empty_lists_filters(fs.drop_last());
    }
}

} // verus!
