//! Reading the fields of a payload object.

use crate::event::canonical::key_order;
use crate::event::data::AssignAction;
use crate::event::json::{
    ascending, ascending_is_unique, trees, trees_by_index, JsonMap, JsonTree, JsonValue,
};
use crate::model::item::{Kind, Size, State, Urgency};
use crate::event::members::outline_view;
use crate::text::set::to_set_of_push;
use crate::text::slice::{holds_str, opt_view, str_eq, string_views, views};
use vstd::prelude::*;

verus! {

/// Why a field is refused: it is not there.
pub open spec fn missing(key: Seq<char>) -> Seq<char> {
    "missing field `"@ + key + "`"@
}

/// Why a field is refused: its value is not of the right kind.
pub open spec fn mismatched(key: Seq<char>) -> Seq<char> {
    "invalid value for field `"@ + key + "`"@
}

/// Why a field is refused: it is there twice.
pub open spec fn repeated(key: Seq<char>) -> Seq<char> {
    "duplicate field `"@ + key + "`"@
}

/// The keys of an outline.
pub open spec fn outline_keys(outline: Seq<(Seq<char>, nat)>) -> Seq<Seq<char>> {
    outline.map_values(|m: (Seq<char>, nat)| m.0)
}

/// What is wrong with the members of a payload before their values are looked at:
/// the first one that repeats a known key, or that stands for a variant and has
/// more than one member.
pub open spec fn flaw(
    known: Seq<Seq<char>>,
    variants: Seq<Seq<char>>,
    outline: Seq<(Seq<char>, nat)>,
) -> Option<Seq<char>>
    decreases outline.len(),
{
    if outline.len() == 0 {
        None
    } else {
        let earlier = outline.drop_last();
        let (key, size) = outline.last();
        match flaw(known, variants, earlier) {
            Some(e) => Some(e),
            None => if known.contains(key) && outline_keys(earlier).contains(key) {
                Some(repeated(key))
            } else if variants.contains(key) && size > 1 {
                Some(mismatched(key))
            } else {
                None
            },
        }
    }
}

proof fn lemma_flaw_stays(
    known: Seq<Seq<char>>,
    variants: Seq<Seq<char>>,
    outline: Seq<(Seq<char>, nat)>,
    n: int,
)
    requires
        0 <= n <= outline.len(),
        flaw(known, variants, outline.take(n)) is Some,
    ensures
        flaw(known, variants, outline) == flaw(known, variants, outline.take(n)),
    decreases outline.len(),
{
    if n == outline.len() {
        assert(outline.take(n) =~= outline);
    } else {
        assert(outline.drop_last().take(n) =~= outline.take(n));
        lemma_flaw_stays(known, variants, outline.drop_last(), n);
    }
}

/// Looks for what is wrong with the members of a payload.
pub(crate) fn find_flaw(
    known: &Vec<&str>,
    variants: &Vec<&str>,
    outline: &Vec<(String, usize)>,
) -> (r: Option<String>)
    ensures
        match r {
            Some(e) => flaw(views(known@), views(variants@), outline_view(outline@)) == Some(e@),
            None => flaw(views(known@), views(variants@), outline_view(outline@)) is None,
        },
{
    let ghost names = views(known@);
    let ghost special = views(variants@);
    let ghost all = outline_view(outline@);
    let mut seen: Vec<&str> = Vec::new();
    let mut i: usize = 0;
    proof {
        assert(all.take(0) =~= Seq::empty());
        assert(views(seen@) =~= Seq::empty());
    }
    while i < outline.len()
        invariant
            i <= outline.len(),
            names == views(known@),
            special == views(variants@),
            all == outline_view(outline@),
            flaw(names, special, all.take(i as int)) is None,
            forall|k: Seq<char>|
                names.contains(k) ==> (#[trigger] views(seen@).contains(k) <==> outline_keys(
                    all.take(i as int),
                ).contains(k)),
        decreases outline.len() - i,
    {
        let (key, size) = &outline[i];
        let ghost earlier = all.take(i as int);
        let ghost next = all.take(i + 1);
        let is_known = holds_str(known, key.as_str());
        proof {
            assert(next.drop_last() =~= earlier);
            assert(next.last() == all[i as int]);
            assert(all[i as int] == (key@, *size as nat));
        }
        if is_known && holds_str(&seen, key.as_str()) {
            proof {
                lemma_flaw_stays(names, special, all, i + 1);
            }
            return Some(repeated_text(key.as_str()));
        }
        if *size > 1 && holds_str(variants, key.as_str()) {
            proof {
                lemma_flaw_stays(names, special, all, i + 1);
            }
            return Some(mismatched_text(key.as_str()));
        }
        let ghost before = views(seen@);
        if is_known {
            seen.push(key.as_str());
            assert(views(seen@) =~= before.push(key@));
        }
        proof {
            let keys = outline_keys(earlier);
            assert(outline_keys(next) =~= keys.push(key@));
            to_set_of_push(keys, key@);
            to_set_of_push(before, key@);
            assert forall|k: Seq<char>| names.contains(k) implies (#[trigger] views(
                seen@,
            ).contains(k) <==> outline_keys(next).contains(k)) by {
                assert(outline_keys(next).to_set().contains(k) == outline_keys(next).contains(k));
                assert(keys.to_set().contains(k) == keys.contains(k));
                assert(before.to_set().contains(k) == before.contains(k));
                assert(before.push(key@).to_set().contains(k) == before.push(key@).contains(k));
                assert(before.contains(k) <==> keys.contains(k));
            }
        }
        i += 1;
    }
    assert(all.take(i as int) =~= all);
    None
}

fn repeated_text(key: &str) -> (r: String)
    ensures
        r@ == repeated(key@),
{
    let mut s = "duplicate field `".to_owned();
    s.append(key);
    s.append("`");
    s
}

pub(crate) fn missing_text(key: &str) -> (r: String)
    ensures
        r@ == missing(key@),
{
    let mut s = "missing field `".to_owned();
    s.append(key);
    s.append("`");
    s
}

pub(crate) fn mismatched_text(key: &str) -> (r: String)
    ensures
        r@ == mismatched(key@),
{
    let mut s = "invalid value for field `".to_owned();
    s.append(key);
    s.append("`");
    s
}

/// The name in a value that stands for a variant: a text, or an object with
/// that one key and `null` under it.
pub open spec fn variant_name(t: JsonTree) -> Option<Seq<char>> {
    match t {
        JsonTree::Text(s) => Some(s),
        JsonTree::Object(m) => if m.dom().finite() && key_order(m).len() == 1 && m[key_order(m)[0]]
            == JsonTree::Null {
            Some(key_order(m)[0])
        } else {
            None
        },
        _ => None,
    }
}

pub(crate) fn get_variant_name<'a>(v: &'a JsonValue) -> (r: Option<&'a str>)
    ensures
        match r {
            Some(s) => variant_name(v.tree()) == Some(s@),
            None => variant_name(v.tree()) is None,
        },
{
    match v {
        JsonValue::Text(s) => Some(s.as_str()),
        JsonValue::Object(map) => {
            let n = map.len();
            proof {
                assert(ascending(map.keys()) && map.keys().to_set() == map.meaning().dom());
                ascending_is_unique(map.keys(), key_order(map.meaning()));
            }
            if n == 1 && map.value_at(0).is_null() {
                Some(map.key_at(0).as_str())
            } else {
                None
            }
        },
        _ => None,
    }
}

/// A required text.
pub open spec fn field_text(m: Map<Seq<char>, JsonTree>, key: Seq<char>) -> Result<
    Seq<char>,
    Seq<char>,
> {
    if !m.contains_key(key) {
        Err(missing(key))
    } else {
        match m[key] {
            JsonTree::Text(s) => Ok(s),
            _ => Err(mismatched(key)),
        }
    }
}

pub(crate) fn get_text(map: &JsonMap, key: &str) -> (r: Result<String, String>)
    ensures
        match r {
            Ok(s) => field_text(map.meaning(), key@) == Ok::<Seq<char>, Seq<char>>(s@),
            Err(e) => field_text(map.meaning(), key@) == Err::<Seq<char>, Seq<char>>(e@),
        },
{
    match map.get(key) {
        None => Err(missing_text(key)),
        Some(v) => match v.as_str() {
            Some(s) => Ok(s.to_owned()),
            None => Err(mismatched_text(key)),
        },
    }
}

/// An optional text; `null` counts as absent.
pub open spec fn field_opt_text(m: Map<Seq<char>, JsonTree>, key: Seq<char>) -> Result<
    Option<Seq<char>>,
    Seq<char>,
> {
    if !m.contains_key(key) {
        Ok(None)
    } else {
        match m[key] {
            JsonTree::Null => Ok(None),
            JsonTree::Text(s) => Ok(Some(s)),
            _ => Err(mismatched(key)),
        }
    }
}

pub(crate) fn get_opt_text(map: &JsonMap, key: &str) -> (r: Result<Option<String>, String>)
    ensures
        match r {
            Ok(s) => field_opt_text(map.meaning(), key@) == Ok::<Option<Seq<char>>, Seq<char>>(
                opt_view(s),
            ),
            Err(e) => field_opt_text(map.meaning(), key@) == Err::<Option<Seq<char>>, Seq<char>>(
                e@,
            ),
        },
{
    match map.get(key) {
        None => Ok(None),
        Some(v) => {
            if v.is_null() {
                Ok(None)
            } else {
                match v.as_str() {
                    Some(s) => Ok(Some(s.to_owned())),
                    None => Err(mismatched_text(key)),
                }
            }
        },
    }
}

/// A required value of any kind.
pub open spec fn field_json(m: Map<Seq<char>, JsonTree>, key: Seq<char>) -> Result<
    JsonTree,
    Seq<char>,
> {
    if m.contains_key(key) {
        Ok(m[key])
    } else {
        Err(missing(key))
    }
}

pub(crate) fn get_json(map: &JsonMap, key: &str) -> (r: Result<JsonValue, String>)
    ensures
        match r {
            Ok(v) => field_json(map.meaning(), key@) == Ok::<JsonTree, Seq<char>>(v.tree()),
            Err(e) => field_json(map.meaning(), key@) == Err::<JsonTree, Seq<char>>(e@),
        },
{
    match map.get(key) {
        None => Err(missing_text(key)),
        Some(v) => Ok(v.clone()),
    }
}

/// Texts as JSON values.
pub open spec fn text_trees(texts: Seq<Seq<char>>) -> Seq<JsonTree> {
    texts.map_values(|s: Seq<char>| JsonTree::Text(s))
}

/// The texts in a list of values that are all texts.
pub open spec fn texts_in(items: Seq<JsonTree>) -> Seq<Seq<char>> {
    items.map_values(|t: JsonTree| t->Text_0)
}

/// A list of texts, empty where it is absent.
pub open spec fn field_texts(m: Map<Seq<char>, JsonTree>, key: Seq<char>) -> Result<
    Seq<Seq<char>>,
    Seq<char>,
> {
    if !m.contains_key(key) {
        Ok(Seq::empty())
    } else {
        match m[key] {
            JsonTree::Array(items) => if forall|i: int|
                0 <= i < items.len() ==> (#[trigger] items[i]) is Text {
                Ok(texts_in(items))
            } else {
                Err(mismatched(key))
            },
            _ => Err(mismatched(key)),
        }
    }
}

pub(crate) fn get_texts(map: &JsonMap, key: &str) -> (r: Result<Vec<String>, String>)
    ensures
        match r {
            Ok(v) => field_texts(map.meaning(), key@) == Ok::<Seq<Seq<char>>, Seq<char>>(
                string_views(v@),
            ),
            Err(e) => field_texts(map.meaning(), key@) == Err::<Seq<Seq<char>>, Seq<char>>(e@),
        },
{
    let mut out: Vec<String> = Vec::new();
    match map.get(key) {
        None => {
            assert(string_views(out@) =~= Seq::empty());
            Ok(out)
        },
        Some(v) => match v.as_array() {
            None => Err(mismatched_text(key)),
            Some(items) => {
                let ghost all = trees(items@);
                proof {
                    trees_by_index(items@);
                }
                let mut i: usize = 0;
                while i < items.len()
                    invariant
                        i <= items.len(),
                        all == trees(items@),
                        all.len() == items.len(),
                        map.meaning().contains_key(key@),
                        map.meaning()[key@] == JsonTree::Array(all),
                        forall|k: int| 0 <= k < all.len() ==> #[trigger] all[k] == items@[k].tree(),
                        out.len() == i,
                        forall|k: int| 0 <= k < i ==> (#[trigger] all[k]) is Text,
                        forall|k: int| 0 <= k < i ==> (#[trigger] out@[k])@ == all[k]->Text_0,
                    decreases items.len() - i,
                {
                    match items[i].as_str() {
                        Some(s) => {
                            out.push(s.to_owned());
                        },
                        None => {
                            assert(!(all[i as int] is Text));
                            return Err(mismatched_text(key));
                        },
                    }
                    i += 1;
                }
                assert(string_views(out@) =~= texts_in(all));
                Ok(out)
            },
        },
    }
}

pub(crate) fn text_values(texts: &Vec<String>) -> (r: Vec<JsonValue>)
    ensures
        trees(r@) == text_trees(string_views(texts@)),
{
    let mut out: Vec<JsonValue> = Vec::new();
    let mut i: usize = 0;
    while i < texts.len()
        invariant
            i <= texts.len(),
            out.len() == i,
            forall|k: int|
                0 <= k < i ==> (#[trigger] out@[k]).tree() == JsonTree::Text(texts@[k]@),
        decreases texts.len() - i,
    {
        out.push(JsonValue::Text(texts[i].clone()));
        i += 1;
    }
    proof {
        trees_by_index(out@);
        assert forall|k: int| 0 <= k < out@.len() implies trees(out@)[k] == text_trees(
            string_views(texts@),
        )[k] by {
            assert(trees(out@)[k] == out@[k].tree());
        }
        assert(trees(out@) =~= text_trees(string_views(texts@)));
    }
    out
}

/// The entries under other keys than the known ones.
pub open spec fn others(m: Map<Seq<char>, JsonTree>, known: Seq<Seq<char>>) -> Map<
    Seq<char>,
    JsonTree,
> {
    m.restrict(Set::new(|k: Seq<char>| !known.contains(k)))
}

pub(crate) fn get_others(map: &JsonMap, known: &Vec<&str>) -> (r: JsonMap)
    ensures
        r.meaning() == others(map.meaning(), views(known@)),
{
    let mut out = JsonMap::new();
    let n = map.len();
    let ghost keys = map.keys();
    let ghost all = map.meaning();
    let ghost names = views(known@);
    let mut i: usize = 0;
    assert(out.meaning() =~= others(all.restrict(keys.take(0).to_set()), names));
    while i < n
        invariant
            i <= n,
            n == keys.len(),
            keys == map.keys(),
            all == map.meaning(),
            names == views(known@),
            out.meaning() == others(all.restrict(keys.take(i as int).to_set()), names),
        decreases n - i,
    {
        let key = map.key_at(i);
        let mut is_known = false;
        let mut j: usize = 0;
        while j < known.len()
            invariant
                j <= known.len(),
                names == views(known@),
                is_known == names.take(j as int).contains(key@),
            decreases known.len() - j,
        {
            proof {
                let next = names.take(j + 1);
                assert(next =~= names.take(j as int).push(names[j as int]));
                if names.take(j as int).contains(key@) {
                    let a = choose|a: int| 0 <= a < j && names.take(j as int)[a] == key@;
                    assert(next[a] == key@);
                }
                assert(next[j as int] == names[j as int]);
            }
            if str_eq(known[j], key.as_str()) {
                is_known = true;
            }
            j += 1;
        }
        assert(names.take(j as int) =~= names);
        let value = map.value_at(i);
        if !is_known {
            out.insert(key.clone(), value.clone());
        }
        proof {
            let part = keys.take(i as int);
            let next = keys.take(i + 1);
            assert(next =~= part.push(keys[i as int]));
            assert forall|k: Seq<char>| #[trigger] next.contains(k) == (part.contains(k) || k
                == keys[i as int]) by {
                if part.contains(k) {
                    let a = choose|a: int| 0 <= a < part.len() && part[a] == k;
                    assert(next[a] == k);
                }
                if k == keys[i as int] {
                    assert(next[i as int] == k);
                }
            }
            assert(out.meaning() =~= others(all.restrict(next.to_set()), names));
        }
        i += 1;
    }
    proof {
        assert(keys.take(i as int) =~= keys);
        assert(all.restrict(keys.to_set()) =~= all);
    }
    out
}

/// The kind that a value stands for.
pub open spec fn kind_in(t: JsonTree) -> Option<Kind> {
    match variant_name(t) {
        Some(name) => Kind::named(name),
        None => None,
    }
}

pub(crate) fn kind_of(v: &JsonValue) -> (r: Option<Kind>)
    ensures
        r == kind_in(v.tree()),
{
    match get_variant_name(v) {
        Some(name) => Kind::from_name(name),
        None => None,
    }
}

/// The state that a value stands for.
pub open spec fn state_in(t: JsonTree) -> Option<State> {
    match variant_name(t) {
        Some(name) => State::named(name),
        None => None,
    }
}

pub(crate) fn state_of(v: &JsonValue) -> (r: Option<State>)
    ensures
        r == state_in(v.tree()),
{
    match get_variant_name(v) {
        Some(name) => State::from_name(name),
        None => None,
    }
}

/// The action that a value stands for.
pub open spec fn action_in(t: JsonTree) -> Option<AssignAction> {
    match variant_name(t) {
        Some(name) => AssignAction::named(name),
        None => None,
    }
}

pub(crate) fn action_of(v: &JsonValue) -> (r: Option<AssignAction>)
    ensures
        r == action_in(v.tree()),
{
    match get_variant_name(v) {
        Some(name) => AssignAction::from_name(name),
        None => None,
    }
}

/// The size that a value stands for.
pub open spec fn size_in(t: JsonTree) -> Option<Size> {
    match variant_name(t) {
        Some(name) => Size::named(name),
        None => None,
    }
}

pub(crate) fn size_of(v: &JsonValue) -> (r: Option<Size>)
    ensures
        r == size_in(v.tree()),
{
    match get_variant_name(v) {
        Some(name) => Size::from_name(name),
        None => None,
    }
}

/// The urgency that a value stands for.
pub open spec fn urgency_in(t: JsonTree) -> Option<Urgency> {
    match variant_name(t) {
        Some(name) => Urgency::named(name),
        None => None,
    }
}

pub(crate) fn urgency_of(v: &JsonValue) -> (r: Option<Urgency>)
    ensures
        r == urgency_in(v.tree()),
{
    match get_variant_name(v) {
        Some(name) => Urgency::from_name(name),
        None => None,
    }
}

/// A required kind.
pub open spec fn field_kind(m: Map<Seq<char>, JsonTree>, key: Seq<char>) -> Result<
    Kind,
    Seq<char>,
> {
    if !m.contains_key(key) {
        Err(missing(key))
    } else {
        match kind_in(m[key]) {
            Some(v) => Ok(v),
            None => Err(mismatched(key)),
        }
    }
}

pub(crate) fn get_kind(map: &JsonMap, key: &str) -> (r: Result<Kind, String>)
    ensures
        match r {
            Ok(v) => field_kind(map.meaning(), key@) == Ok::<Kind, Seq<char>>(v),
            Err(e) => field_kind(map.meaning(), key@) == Err::<Kind, Seq<char>>(e@),
        },
{
    match map.get(key) {
        None => Err(missing_text(key)),
        Some(v) => {
            match kind_of(v) {
                Some(v) => Ok(v),
                None => Err(mismatched_text(key)),
            }
        },
    }
}

/// A required state.
pub open spec fn field_state(m: Map<Seq<char>, JsonTree>, key: Seq<char>) -> Result<
    State,
    Seq<char>,
> {
    if !m.contains_key(key) {
        Err(missing(key))
    } else {
        match state_in(m[key]) {
            Some(v) => Ok(v),
            None => Err(mismatched(key)),
        }
    }
}

pub(crate) fn get_state(map: &JsonMap, key: &str) -> (r: Result<State, String>)
    ensures
        match r {
            Ok(v) => field_state(map.meaning(), key@) == Ok::<State, Seq<char>>(v),
            Err(e) => field_state(map.meaning(), key@) == Err::<State, Seq<char>>(e@),
        },
{
    match map.get(key) {
        None => Err(missing_text(key)),
        Some(v) => {
            match state_of(v) {
                Some(v) => Ok(v),
                None => Err(mismatched_text(key)),
            }
        },
    }
}

/// A required action.
pub open spec fn field_action(m: Map<Seq<char>, JsonTree>, key: Seq<char>) -> Result<
    AssignAction,
    Seq<char>,
> {
    if !m.contains_key(key) {
        Err(missing(key))
    } else {
        match action_in(m[key]) {
            Some(v) => Ok(v),
            None => Err(mismatched(key)),
        }
    }
}

pub(crate) fn get_action(map: &JsonMap, key: &str) -> (r: Result<AssignAction, String>)
    ensures
        match r {
            Ok(v) => field_action(map.meaning(), key@) == Ok::<AssignAction, Seq<char>>(v),
            Err(e) => field_action(map.meaning(), key@) == Err::<AssignAction, Seq<char>>(e@),
        },
{
    match map.get(key) {
        None => Err(missing_text(key)),
        Some(v) => {
            match action_of(v) {
                Some(v) => Ok(v),
                None => Err(mismatched_text(key)),
            }
        },
    }
}

/// An optional size; `null` counts as absent.
pub open spec fn field_opt_size(m: Map<Seq<char>, JsonTree>, key: Seq<char>) -> Result<
    Option<Size>,
    Seq<char>,
> {
    if !m.contains_key(key) {
        Ok(None)
    } else if m[key] == JsonTree::Null {
        Ok(None)
    } else {
        match size_in(m[key]) {
            Some(v) => Ok(Some(v)),
            None => Err(mismatched(key)),
        }
    }
}

pub(crate) fn get_opt_size(map: &JsonMap, key: &str) -> (r: Result<Option<Size>, String>)
    ensures
        match r {
            Ok(v) => field_opt_size(map.meaning(), key@) == Ok::<Option<Size>, Seq<char>>(v),
            Err(e) => field_opt_size(map.meaning(), key@) == Err::<Option<Size>, Seq<char>>(e@),
        },
{
    match map.get(key) {
        None => Ok(None),
        Some(v) => {
            if v.is_null() {
                return Ok(None);
            }
            match size_of(v) {
                Some(v) => Ok(Some(v)),
                None => Err(mismatched_text(key)),
            }
        },
    }
}

/// An urgency, the default one where it is absent.
pub open spec fn field_urgency_or_default(m: Map<Seq<char>, JsonTree>, key: Seq<char>) -> Result<
    Urgency,
    Seq<char>,
> {
    if !m.contains_key(key) {
        Ok(Urgency::Default)
    } else {
        match urgency_in(m[key]) {
            Some(v) => Ok(v),
            None => Err(mismatched(key)),
        }
    }
}

pub(crate) fn get_urgency_or_default(map: &JsonMap, key: &str) -> (r: Result<Urgency, String>)
    ensures
        match r {
            Ok(v) => field_urgency_or_default(map.meaning(), key@) == Ok::<Urgency, Seq<char>>(v),
            Err(e) => field_urgency_or_default(map.meaning(), key@) == Err::<Urgency, Seq<char>>(e@),
        },
{
    match map.get(key) {
        None => Ok(Urgency::Default),
        Some(v) => {
            match urgency_of(v) {
                Some(v) => Ok(v),
                None => Err(mismatched_text(key)),
            }
        },
    }
}

}
