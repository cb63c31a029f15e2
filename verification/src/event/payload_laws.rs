//! What a payload promises of the JSON object that it is read from or written as.

use crate::event::data::{
    keys_of, payload_reads_back, read_outlined, read_payload, variant_keys, AssignAction, Payload,
};
use crate::event::fields::{flaw, outline_keys, variant_name};
use crate::event::json::JsonTree;
use crate::event::types::EventType;
use crate::model::item::{Kind, Size, State, Urgency};
use vstd::prelude::*;

verus! {

/// Whether an object holds a text under a key.
pub open spec fn holds_text(m: Map<Seq<char>, JsonTree>, key: Seq<char>, s: Seq<char>) -> bool {
    m.contains_key(key) && m[key] == JsonTree::Text(s)
}

/// Whether an object holds a text under a key if there is one, and else nothing or
/// null.
pub open spec fn holds_if_any(
    m: Map<Seq<char>, JsonTree>,
    key: Seq<char>,
    s: Option<Seq<char>>,
) -> bool {
    match s {
        Some(s) => holds_text(m, key, s),
        None => !m.contains_key(key) || m[key] == JsonTree::Null,
    }
}

/// Whether an object holds the name of a variant under a key.
pub open spec fn holds_name(m: Map<Seq<char>, JsonTree>, key: Seq<char>, name: Seq<char>) -> bool {
    m.contains_key(key) && variant_name(m[key]) == Some(name)
}

/// Whether an object holds texts as an array under a key, or nothing where there are
/// none.
pub open spec fn holds_texts(
    m: Map<Seq<char>, JsonTree>,
    key: Seq<char>,
    texts: Seq<Seq<char>>,
) -> bool {
    if m.contains_key(key) {
        match m[key] {
            JsonTree::Array(items) => items.len() == texts.len() && forall|i: int|
                0 <= i < items.len() ==> #[trigger] items[i] == JsonTree::Text(texts[i]),
            _ => false,
        }
    } else {
        texts.len() == 0
    }
}

/// Whether the fields of a payload stand in an object, each under its own key.
pub open spec fn stands_in(p: Payload, m: Map<Seq<char>, JsonTree>) -> bool {
    match p {
        Payload::Create(d) => {
            &&& holds_text(m, "title"@, d.title)
            &&& holds_name(m, "kind"@, d.kind.name())
            &&& match d.size {
                Some(size) => holds_name(m, "size"@, size.name()),
                None => !m.contains_key("size"@) || m["size"@] == JsonTree::Null,
            }
            &&& holds_name(m, "urgency"@, d.urgency.name()) || (!m.contains_key("urgency"@)
                && d.urgency == Urgency::Default)
            &&& holds_texts(m, "labels"@, d.labels)
            &&& holds_if_any(m, "parent"@, d.parent)
            &&& holds_if_any(m, "causation"@, d.causation)
            &&& holds_if_any(m, "description"@, d.description)
        },
        Payload::Update(d) => holds_text(m, "field"@, d.field) && m.contains_key("value"@)
            && m["value"@] == d.value,
        Payload::Move(d) => holds_name(m, "state"@, d.state.name()) && holds_if_any(
            m,
            "reason"@,
            d.reason,
        ),
        Payload::Assign(d) => holds_text(m, "agent"@, d.agent) && holds_name(
            m,
            "action"@,
            d.action.name(),
        ),
        Payload::Comment(d) => holds_text(m, "body"@, d.body),
        Payload::Link(d) => holds_text(m, "target"@, d.target) && holds_text(
            m,
            "link_type"@,
            d.link_type,
        ),
        Payload::Unlink(d) => holds_text(m, "target"@, d.target) && holds_if_any(
            m,
            "link_type"@,
            d.link_type,
        ),
        Payload::Delete(d) => holds_if_any(m, "reason"@, d.reason),
        Payload::Compact(d) => holds_text(m, "summary"@, d.summary),
        Payload::Snapshot(d) => m.contains_key("state"@) && m["state"@] == d.state,
        Payload::Redact(d) => holds_text(m, "target_hash"@, d.target_hash) && holds_text(
            m,
            "reason"@,
            d.reason,
        ),
    }
}

/// A payload that is read is of the type it is read for, and holds what the object
/// holds under the key of each field. What stands under other keys is kept as it is.
pub proof fn read_payload_stands_in_its_object(event_type: EventType, m: Map<Seq<char>, JsonTree>)
    requires
        read_payload(event_type, JsonTree::Object(m)) is Ok,
    ensures
        ({
            let p = read_payload(event_type, JsonTree::Object(m))->Ok_0;
            &&& p.event_type() == event_type
            &&& stands_in(p, m)
            &&& forall|k: Seq<char>|
                m.contains_key(k) && !keys_of(event_type).contains(k)
                    ==> #[trigger] p.extra().contains_key(k) && p.extra()[k] == m[k]
            &&& forall|k: Seq<char>| #[trigger]
                p.extra().contains_key(k) ==> m.contains_key(k) && p.extra()[k] == m[k]
        }),
{
    lemma_names_are_read();
}

proof fn lemma_names_are_read()
    ensures
        forall|s: Seq<char>| (#[trigger] Kind::named(s)) is Some ==> Kind::named(s)->0.name() == s,
        forall|s: Seq<char>|
            (#[trigger] State::named(s)) is Some ==> State::named(s)->0.name() == s,
        forall|s: Seq<char>| (#[trigger] Size::named(s)) is Some ==> Size::named(s)->0.name() == s,
        forall|s: Seq<char>|
            (#[trigger] Urgency::named(s)) is Some ==> Urgency::named(s)->0.name() == s,
        forall|s: Seq<char>|
            (#[trigger] AssignAction::named(s)) is Some ==> AssignAction::named(s)->0.name() == s,
{
}

/// A payload is written as an object that holds each of its fields under the field's
/// own key.
pub proof fn written_payload_holds_its_fields(p: Payload)
    requires
        p.separate(),
    ensures
        p.tree() matches JsonTree::Object(m) && stands_in(p, m),
{
    payload_reads_back(p);
    read_payload_stands_in_its_object(p.event_type(), p.tree()->Object_0);
}

/// Only objects are read, and an object is read exactly if what has to be there is and
/// what is there is as it has to be.
pub proof fn object_with_its_fields_is_read(event_type: EventType, m: Map<Seq<char>, JsonTree>)
    ensures
        ({
            let ok = read_payload(event_type, JsonTree::Object(m)) is Ok;
            let text = |k: Seq<char>| m.contains_key(k) && m[k] is Text;
            let text_if_any = |k: Seq<char>|
                m.contains_key(k) ==> m[k] is Text || m[k] == JsonTree::Null;
            match event_type {
                EventType::Create => ok ==> text("title"@) && m.contains_key("kind"@)
                    && text_if_any("parent"@) && text_if_any("causation"@) && text_if_any(
                    "description"@,
                ),
                EventType::Update => ok <==> text("field"@) && m.contains_key("value"@),
                EventType::Move => ok ==> m.contains_key("state"@) && text_if_any("reason"@),
                EventType::Assign => ok ==> text("agent"@) && m.contains_key("action"@),
                EventType::Comment => ok <==> text("body"@),
                EventType::Link => ok <==> text("target"@) && text("link_type"@),
                EventType::Unlink => ok <==> text("target"@) && text_if_any("link_type"@),
                EventType::Delete => ok <==> text_if_any("reason"@),
                EventType::Compact => ok <==> text("summary"@),
                EventType::Snapshot => ok <==> m.contains_key("state"@),
                EventType::Redact => ok <==> text("target_hash"@) && text("reason"@),
            }
        }),
{
}

/// A payload whose text names a key of its type twice is refused.
pub proof fn repeated_key_is_refused(
    event_type: EventType,
    t: JsonTree,
    outline: Seq<(Seq<char>, nat)>,
    i: int,
    j: int,
)
    requires
        0 <= i < j < outline.len(),
        outline[i].0 == outline[j].0,
        keys_of(event_type).contains(outline[j].0),
    ensures
        read_outlined(event_type, t, outline) is Err,
{
    let known = keys_of(event_type);
    let variants = variant_keys(event_type);
    let upto = outline.take(j + 1);
    assert(upto.drop_last() =~= outline.take(j));
    assert(upto.last() == outline[j]);
    assert(outline_keys(outline.take(j))[i] == outline[j].0);
    lemma_flaw_stays(known, variants, outline, j + 1);
}

/// A payload whose text gives a variant as an object of more than one member is
/// refused.
pub proof fn variant_of_many_members_is_refused(
    event_type: EventType,
    t: JsonTree,
    outline: Seq<(Seq<char>, nat)>,
    i: int,
)
    requires
        0 <= i < outline.len(),
        outline[i].1 > 1,
        variant_keys(event_type).contains(outline[i].0),
    ensures
        read_outlined(event_type, t, outline) is Err,
{
    let upto = outline.take(i + 1);
    assert(upto.drop_last() =~= outline.take(i));
    assert(upto.last() == outline[i]);
    lemma_flaw_stays(keys_of(event_type), variant_keys(event_type), outline, i + 1);
}

proof fn lemma_flaw_stays(
    known: Seq<Seq<char>>,
    variants: Seq<Seq<char>>,
    outline: Seq<(Seq<char>, nat)>,
    n: int,
)
    requires
        0 <= n <= outline.len(),
        flaw(known, variants, outline.take(n)) is Some,
    ensures
        flaw(known, variants, outline) is Some,
    decreases outline.len(),
{
    if n == outline.len() {
        assert(outline.take(n) =~= outline);
    } else {
        assert(outline.drop_last().take(n) =~= outline.take(n));
        lemma_flaw_stays(known, variants, outline.drop_last(), n);
    }
}

/// A payload whose text names no key twice and gives each variant with one member at
/// most is read as its object is.
pub proof fn plain_outline_changes_nothing(
    event_type: EventType,
    t: JsonTree,
    outline: Seq<(Seq<char>, nat)>,
)
    requires
        forall|i: int, j: int|
            0 <= i < j < outline.len() ==> (#[trigger] outline[i]).0 != (#[trigger] outline[j]).0,
        forall|i: int| 0 <= i < outline.len() ==> (#[trigger] outline[i]).1 <= 1,
    ensures
        read_outlined(event_type, t, outline) == read_payload(event_type, t),
{
    lemma_no_flaw(keys_of(event_type), variant_keys(event_type), outline);
}

proof fn lemma_no_flaw(
    known: Seq<Seq<char>>,
    variants: Seq<Seq<char>>,
    outline: Seq<(Seq<char>, nat)>,
)
    requires
        forall|i: int, j: int|
            0 <= i < j < outline.len() ==> (#[trigger] outline[i]).0 != (#[trigger] outline[j]).0,
        forall|i: int| 0 <= i < outline.len() ==> (#[trigger] outline[i]).1 <= 1,
    ensures
        flaw(known, variants, outline) is None,
    decreases outline.len(),
{
    if outline.len() > 0 {
        let front = outline.drop_last();
        assert forall|i: int| 0 <= i < front.len() implies front[i] == #[trigger] outline[i] by {
        }
        assert forall|i: int, j: int| 0 <= i < j < front.len() implies (#[trigger] front[i]).0 != (
        #[trigger] front[j]).0 by {
            assert(outline[i].0 != outline[j].0);
        }
        assert forall|i: int| 0 <= i < front.len() implies (#[trigger] front[i]).1 <= 1 by {
            assert(outline[i].1 <= 1);
        }
        lemma_no_flaw(known, variants, front);
        let last = outline[outline.len() - 1];
        assert(last == outline.last());
        assert(!outline_keys(front).contains(last.0)) by {
            if outline_keys(front).contains(last.0) {
                let i = choose|i: int|
                    0 <= i < outline_keys(front).len() && outline_keys(front)[i] == last.0;
                assert(front[i].0 == last.0);
                assert(outline[i].0 != outline[outline.len() - 1].0);
            }
        }
    }
}

}
