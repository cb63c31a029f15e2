//! What the statements of queries say.

use crate::db::query::{
    clauses, counting, listing, page, Clauses, FilterView, SortOrder, COUNT_ITEMS, GET_ANY_ITEM,
    GET_ASSIGNEES, GET_CHILDREN, GET_COMMENTS, GET_DEPENDENCIES, GET_DEPENDENTS, GET_ITEM,
    GET_LABELS, LIST_ITEMS, LIST_LABELS,
};
use crate::db::statement::Bound;
use crate::text::decimal::{all_digits, digits_value, is_digit, nat_text, nat_text_reads_back};
use crate::text::slice::{contains_text, join, occurs_at, split_on, split_undoes_join, starts_with};
use vstd::prelude::*;

verus! {

/// Whether a text ends with another.
pub open spec fn ends_with(s: Seq<char>, tail: Seq<char>) -> bool {
    tail.len() <= s.len() && s.skip(s.len() - tail.len()) == tail
}

/// A listing ends with the page that the filter asks for: its limit and its offset
/// in decimals, each where it is set. Without a limit there is none but for the
/// offset.
pub proof fn listing_ends_with_its_page(f: FilterView)
    ensures
        f.limit is Some && f.offset is Some ==> ends_with(
            listing(f).sql,
            " LIMIT "@ + nat_text(f.limit->0 as nat) + " OFFSET "@ + nat_text(f.offset->0 as nat),
        ),
        f.limit is Some && f.offset is None ==> ends_with(
            listing(f).sql,
            " LIMIT "@ + nat_text(f.limit->0 as nat),
        ),
        f.limit is None && f.offset is Some ==> ends_with(
            listing(f).sql,
            " LIMIT -1 OFFSET "@ + nat_text(f.offset->0 as nat),
        ),
        f.limit is None && f.offset is None ==> ends_with(listing(f).sql, f.sort.clause()),
{
    let cut = page(f.limit, f.offset);
    let head = LIST_ITEMS@ + clauses(f).text() + " "@ + f.sort.clause();
    let sql = listing(f).sql;
    assert(sql =~= head + cut);
    assert(sql.skip(sql.len() - cut.len()) =~= cut);
    let sorted = head + Seq::<char>::empty();
    assert(sorted =~= head);
    let tail = f.sort.clause();
    assert(head.skip(head.len() - tail.len()) =~= tail);
}

/// A number in decimals has no blank and no sign.
proof fn lemma_number(n: nat)
    ensures
        nat_text(n).len() > 0,
        !nat_text(n).contains(' '),
        is_digit(nat_text(n)[0]),
        digits_value(nat_text(n)) == n,
{
    nat_text_reads_back(n);
    assert(all_digits(nat_text(n)));
    if nat_text(n).contains(' ') {
        let i = choose|i: int| 0 <= i < nat_text(n).len() && nat_text(n)[i] == ' ';
        assert(is_digit(nat_text(n)[i]));
    }
}

/// The words of a page.
spec fn words(limit: Option<u32>, offset: Option<u32>) -> Seq<Seq<char>> {
    let none = Seq::<char>::empty();
    match (limit, offset) {
        (Some(l), Some(o)) => seq![
            none,
            "LIMIT"@,
            nat_text(l as nat),
            "OFFSET"@,
            nat_text(o as nat),
        ],
        (Some(l), None) => seq![none, "LIMIT"@, nat_text(l as nat)],
        (None, Some(o)) => seq![none, "LIMIT"@, "-1"@, "OFFSET"@, nat_text(o as nat)],
        (None, None) => seq![none],
    }
}

proof fn lemma_words(limit: Option<u32>, offset: Option<u32>)
    ensures
        split_on(page(limit, offset), ' ') == words(limit, offset),
{
    reveal_strlit(" LIMIT ");
    reveal_strlit(" OFFSET ");
    reveal_strlit(" LIMIT -1 OFFSET ");
    reveal_strlit("LIMIT");
    reveal_strlit("OFFSET");
    reveal_strlit("-1");
    let w = words(limit, offset);
    if limit is Some {
        lemma_number(limit->0 as nat);
    }
    if offset is Some {
        lemma_number(offset->0 as nat);
    }
    assert forall|i: int| 0 <= i < w.len() implies !(#[trigger] w[i]).contains(' ') by {}
    let blank = seq![' '];
    let none = Seq::<char>::empty();
    assert(join(seq![none], blank) =~= none);
    let two = seq![none, "LIMIT"@];
    assert(two.drop_last() =~= seq![none]);
    assert(join(two, blank) =~= " LIMIT"@) by {
        reveal_strlit(" LIMIT");
    }
    if w.len() > 1 {
        let three = w.take(3);
        assert(three.drop_last() =~= two);
        assert(join(three, blank) =~= join(two, blank) + blank + w[2]);
        if w.len() == 5 {
            let four = w.take(4);
            assert(four.drop_last() =~= three);
            assert(w.drop_last() =~= four);
            assert(join(four, blank) =~= join(three, blank) + blank + w[3]);
            assert(join(w, blank) =~= join(four, blank) + blank + w[4]);
        } else {
            assert(w =~= three);
        }
    } else {
        assert(w =~= seq![none]);
    }
    reveal_strlit(" LIMIT");
    assert(join(w, blank) =~= page(limit, offset));
    split_undoes_join(w, ' ');
}

/// A page is told by its text: pages with another limit or another offset have
/// another text.
pub proof fn pages_differ(
    limit: Option<u32>,
    offset: Option<u32>,
    other_limit: Option<u32>,
    other_offset: Option<u32>,
)
    requires
        limit != other_limit || offset != other_offset,
    ensures
        page(limit, offset) != page(other_limit, other_offset),
{
    lemma_words(limit, offset);
    lemma_words(other_limit, other_offset);
    reveal_strlit("-1");
    if page(limit, offset) == page(other_limit, other_offset) {
        let a = words(limit, offset);
        let b = words(other_limit, other_offset);
        assert(a == b);
        if limit is Some {
            lemma_number(limit->0 as nat);
        }
        if other_limit is Some {
            lemma_number(other_limit->0 as nat);
        }
        if offset is Some {
            lemma_number(offset->0 as nat);
        }
        if other_offset is Some {
            lemma_number(other_offset->0 as nat);
        }
        assert(a.len() == b.len());
        if a.len() > 1 {
            assert(a[2] == b[2]);
            assert(!is_digit('-'));
            if a.len() == 5 {
                assert(a[4] == b[4]);
            }
        }
    }
}

/// Two listings that differ in the limit or the offset alone differ in text.
pub proof fn listings_of_other_pages_differ(f: FilterView, g: FilterView)
    requires
        f.limit != g.limit || f.offset != g.offset,
        g == (FilterView { limit: g.limit, offset: g.offset, ..f }),
    ensures
        listing(f).sql != listing(g).sql,
        listing(f).params == listing(g).params,
        counting(f) == counting(g),
{
    pages_differ(f.limit, f.offset, g.limit, g.offset);
    let head = LIST_ITEMS@ + clauses(f).text() + " "@ + f.sort.clause();
    assert(clauses(g) == clauses(f));
    let a = listing(f).sql;
    let b = listing(g).sql;
    assert(a.skip(head.len() as int) =~= page(f.limit, f.offset));
    assert(b.skip(head.len() as int) =~= page(g.limit, g.offset));
}

/// The part of a text behind a prefix and before a suffix occurs in it.
proof fn lemma_middle_occurs(a: Seq<char>, b: Seq<char>, c: Seq<char>)
    ensures
        contains_text(a + b + c, b),
{
    let whole = a + b + c;
    assert(whole.subrange(a.len() as int, (a.len() + b.len()) as int) =~= b);
    assert(occurs_at(whole, b, a.len() as int));
}

/// What occurs in a part of a text occurs in the text.
proof fn lemma_occurs_within(a: Seq<char>, b: Seq<char>, c: Seq<char>, needle: Seq<char>)
    requires
        contains_text(b, needle),
    ensures
        contains_text(a + b + c, needle),
{
    let i = choose|i: int| occurs_at(b, needle, i);
    let whole = a + b + c;
    assert(whole.subrange(a.len() + i, a.len() + i + needle.len()) =~= b.subrange(
        i,
        i + needle.len(),
    ));
    assert(occurs_at(whole, needle, a.len() + i));
}

/// A piece of a joined text occurs in it.
proof fn lemma_piece_occurs(parts: Seq<Seq<char>>, sep: Seq<char>, i: int)
    requires
        0 <= i < parts.len(),
    ensures
        contains_text(join(parts, sep), parts[i]),
    decreases parts.len(),
{
    let none = Seq::<char>::empty();
    if parts.len() == 1 {
        lemma_middle_occurs(none, parts[0], none);
        assert(none + parts[0] + none =~= parts[0]);
    } else if i == parts.len() - 1 {
        let front = join(parts.drop_last(), sep) + sep;
        lemma_middle_occurs(front, parts.last(), none);
        assert(front + parts.last() + none =~= join(parts, sep));
    } else {
        lemma_piece_occurs(parts.drop_last(), sep, i);
        assert(parts.drop_last()[i] == parts[i]);
        lemma_occurs_within(none, join(parts.drop_last(), sep), sep + parts.last(), parts[i]);
        assert(none + join(parts.drop_last(), sep) + (sep + parts.last()) =~= join(parts, sep));
    }
}

/// Whether a text asks for a column to equal a value: it compares the column with a
/// numbered parameter, and the parameter of that number is the value.
pub open spec fn asks_for(
    sql: Seq<char>,
    params: Seq<Bound>,
    column: Seq<char>,
    value: Seq<char>,
) -> bool {
    exists|k: nat|
        1 <= k <= params.len() && params[k - 1] == Bound::Text(value) && contains_text(
            sql,
            column + #[trigger] nat_text(k),
        )
}

/// The parts of a statement after some of the criteria.
spec fn stage(f: FilterView, n: nat) -> Clauses
    decreases n,
{
    if n == 0 {
        Clauses {
            joins: Seq::empty(),
            conditions: if f.include_deleted {
                Seq::empty()
            } else {
                seq!["i.is_deleted = 0"@]
            },
            params: Seq::empty(),
        }
    } else {
        let before = stage(f, (n - 1) as nat);
        if n == 1 {
            before.matching("i.state = ?"@, f.state)
        } else if n == 2 {
            before.matching("i.kind = ?"@, f.kind)
        } else if n == 3 {
            before.matching("i.urgency = ?"@, f.urgency)
        } else if n == 4 {
            before.matching("i.parent_id = ?"@, f.parent_id)
        } else if n == 5 {
            before.joined(
                " INNER JOIN item_labels il ON il.item_id = i.item_id AND il.label = ?"@,
                f.label,
            )
        } else {
            before.joined(
                " INNER JOIN item_assignees ia ON ia.item_id = i.item_id AND ia.agent = ?"@,
                f.assignee,
            )
        }
    }
}

proof fn lemma_last_stage(f: FilterView)
    ensures
        stage(f, 6) == clauses(f),
{
    reveal_with_fuel(stage, 7);
}

/// What a stage has, every later one has.
proof fn lemma_stages_grow(f: FilterView, m: nat, n: nat)
    requires
        m <= n,
    ensures
        stage(f, m).conditions.len() <= stage(f, n).conditions.len(),
        stage(f, m).params.len() <= stage(f, n).params.len(),
        forall|i: int|
            0 <= i < stage(f, m).conditions.len() ==> stage(f, n).conditions[i]
                == #[trigger] stage(f, m).conditions[i],
        forall|i: int|
            0 <= i < stage(f, m).params.len() ==> stage(f, n).params[i] == #[trigger] stage(
                f,
                m,
            ).params[i],
        stage(f, m).joins.len() <= stage(f, n).joins.len(),
        stage(f, n).joins.take(stage(f, m).joins.len() as int) == stage(f, m).joins,
    decreases n,
{
    let first = stage(f, m).joins;
    if m < n {
        lemma_stages_grow(f, m, (n - 1) as nat);
        let before = stage(f, (n - 1) as nat).joins;
        let after = stage(f, n).joins;
        assert(after.take(before.len() as int) =~= before);
        assert(after.take(first.len() as int) =~= before.take(first.len() as int));
    } else {
        assert(first.take(first.len() as int) =~= first);
    }
}

/// A criterion that is a condition is asked for.
proof fn lemma_matched(f: FilterView, n: nat, column: Seq<char>, value: Seq<char>)
    requires
        1 <= n <= 4,
        stage(f, n) == stage(f, (n - 1) as nat).matching(column, Some(value)),
    ensures
        asked_in_both(f, column, value),
{
    let k = stage(f, n).params.len();
    let last = stage(f, n).conditions.len() - 1;
    lemma_last_stage(f);
    lemma_stages_grow(f, n, 6);
    assert(stage(f, n).conditions[last] == column + nat_text(k));
    assert(stage(f, n).params[k - 1] == Bound::Text(value));
    lemma_condition_is_asked(f, last, column + nat_text(k));
}

#[verifier::spinoff_prover]
proof fn lemma_condition_is_asked(f: FilterView, i: int, condition: Seq<char>)
    requires
        0 <= i < clauses(f).conditions.len(),
        clauses(f).conditions[i] == condition,
    ensures
        contains_text(listing(f).sql, condition),
        contains_text(counting(f).sql, condition),
{
    let c = clauses(f);
    let all = join(c.conditions, " AND "@);
    lemma_piece_occurs(c.conditions, " AND "@, i);
    let rest = " "@ + f.sort.clause() + page(f.limit, f.offset);
    let list_head = LIST_ITEMS@ + c.joins + " WHERE "@;
    let count_head = COUNT_ITEMS@ + c.joins + " WHERE "@;
    let none = Seq::<char>::empty();
    lemma_occurs_within(list_head, all, rest, condition);
    lemma_occurs_within(count_head, all, none, condition);
    assert(listing(f).sql =~= list_head + all + rest);
    assert(counting(f).sql =~= count_head + all + none);
}

#[verifier::spinoff_prover]
proof fn lemma_join_is_asked(f: FilterView, before: Seq<char>, part: Seq<char>, after: Seq<char>)
    requires
        clauses(f).joins == before + part + after,
    ensures
        contains_text(listing(f).sql, part),
        contains_text(counting(f).sql, part),
{
    let c = clauses(f);
    let conditions = if c.conditions.len() == 0 {
        Seq::empty()
    } else {
        " WHERE "@ + join(c.conditions, " AND "@)
    };
    let rest = conditions + (" "@ + f.sort.clause() + page(f.limit, f.offset));
    lemma_middle_occurs(LIST_ITEMS@ + before, part, after + rest);
    lemma_middle_occurs(COUNT_ITEMS@ + before, part, after + conditions);
    assert(listing(f).sql =~= (LIST_ITEMS@ + before) + part + (after + rest));
    assert(counting(f).sql =~= (COUNT_ITEMS@ + before) + part + (after + conditions));
}

/// Every criterion that a filter sets is asked for, with its own value, in the
/// listing and in the count alike.
pub proof fn criteria_are_asked_for(f: FilterView)
    ensures
        f.state is Some ==> asked_in_both(f, "i.state = ?"@, f.state->0),
        f.kind is Some ==> asked_in_both(f, "i.kind = ?"@, f.kind->0),
        f.urgency is Some ==> asked_in_both(f, "i.urgency = ?"@, f.urgency->0),
        f.parent_id is Some ==> asked_in_both(f, "i.parent_id = ?"@, f.parent_id->0),
        f.label is Some ==> asked_in_both(
            f,
            " INNER JOIN item_labels il ON il.item_id = i.item_id AND il.label = ?"@,
            f.label->0,
        ),
        f.assignee is Some ==> asked_in_both(
            f,
            " INNER JOIN item_assignees ia ON ia.item_id = i.item_id AND ia.agent = ?"@,
            f.assignee->0,
        ),
        !f.include_deleted ==> contains_text(listing(f).sql, "i.is_deleted = 0"@)
            && contains_text(counting(f).sql, "i.is_deleted = 0"@),
{
    lemma_last_stage(f);
    if !f.include_deleted {
        lemma_stages_grow(f, 0, 6);
        assert(stage(f, 0).conditions[0] == "i.is_deleted = 0"@);
        lemma_condition_is_asked(f, 0, "i.is_deleted = 0"@);
    }
    if f.state is Some {
        lemma_matched(f, 1, "i.state = ?"@, f.state->0);
    }
    if f.kind is Some {
        lemma_matched(f, 2, "i.kind = ?"@, f.kind->0);
    }
    if f.urgency is Some {
        lemma_matched(f, 3, "i.urgency = ?"@, f.urgency->0);
    }
    if f.parent_id is Some {
        lemma_matched(f, 4, "i.parent_id = ?"@, f.parent_id->0);
    }
    if f.label is Some {
        lemma_joined(
            f,
            5,
            " INNER JOIN item_labels il ON il.item_id = i.item_id AND il.label = ?"@,
            f.label->0,
        );
    }
    if f.assignee is Some {
        lemma_joined(
            f,
            6,
            " INNER JOIN item_assignees ia ON ia.item_id = i.item_id AND ia.agent = ?"@,
            f.assignee->0,
        );
    }
}

/// A criterion that is a join is asked for.
#[verifier::spinoff_prover]
proof fn lemma_joined(f: FilterView, n: nat, table: Seq<char>, value: Seq<char>)
    requires
        5 <= n <= 6,
        stage(f, n) == stage(f, (n - 1) as nat).joined(table, Some(value)),
    ensures
        asked_in_both(f, table, value),
{
    let here = stage(f, n);
    let k = here.params.len();
    let before = stage(f, (n - 1) as nat).joins;
    let part = table + nat_text(k);
    let all = stage(f, 6).joins;
    let after = all.skip(here.joins.len() as int);
    lemma_last_stage(f);
    lemma_stages_grow(f, n, 6);
    assert(here.params[k - 1] == Bound::Text(value));
    assert(here.joins =~= before + part);
    assert(all =~= all.take(here.joins.len() as int) + after);
    assert(all =~= before + part + after);
    lemma_join_is_asked(f, before, part, after);
}

/// Whether the listing and the count of a filter ask for a column to equal a value.
pub open spec fn asked_in_both(f: FilterView, column: Seq<char>, value: Seq<char>) -> bool {
    &&& asks_for(listing(f).sql, listing(f).params, column, value)
    &&& asks_for(counting(f).sql, counting(f).params, column, value)
}

/// A filter that sets nothing selects every item, and every one that is not deleted
/// if deleted items are left out.
pub proof fn empty_filter_selects_all(f: FilterView)
    requires
        f.state is None,
        f.kind is None,
        f.urgency is None,
        f.parent_id is None,
        f.label is None,
        f.assignee is None,
    ensures
        counting(f).params.len() == 0,
        f.include_deleted ==> counting(f).sql == "SELECT COUNT(*) FROM items i"@,
        !f.include_deleted ==> counting(f).sql
            == "SELECT COUNT(*) FROM items i WHERE i.is_deleted = 0"@,
{
    reveal_strlit("SELECT COUNT(*) FROM items i");
    reveal_strlit("SELECT COUNT(*) FROM items i WHERE i.is_deleted = 0");
    reveal_strlit(" WHERE ");
    reveal_strlit("i.is_deleted = 0");
    assert(f.include_deleted ==> counting(f).sql =~= "SELECT COUNT(*) FROM items i"@);
    assert(!f.include_deleted ==> counting(f).sql
        =~= "SELECT COUNT(*) FROM items i WHERE i.is_deleted = 0"@);
}

/// The direction of a sort as it stands in a clause.
pub open spec fn direction(descending: bool) -> Seq<char> {
    if descending {
        " DESC, i.item_id ASC"@
    } else {
        " ASC, i.item_id ASC"@
    }
}

/// A listing is sorted as the filter asks: by the time of creation or of the last
/// update, the newest or the oldest first, with the item as the last resort. By
/// priority the urgent come first and the postponed last, the latest update of each
/// first.
pub proof fn listing_is_sorted_as_asked(sort: SortOrder)
    ensures
        sort == SortOrder::CreatedDesc ==> sort.clause() == "ORDER BY i.created_at_us"@ + direction(
            true,
        ),
        sort == SortOrder::CreatedAsc ==> sort.clause() == "ORDER BY i.created_at_us"@ + direction(
            false,
        ),
        sort == SortOrder::UpdatedDesc ==> sort.clause() == "ORDER BY i.updated_at_us"@ + direction(
            true,
        ),
        sort == SortOrder::UpdatedAsc ==> sort.clause() == "ORDER BY i.updated_at_us"@ + direction(
            false,
        ),
        sort == SortOrder::Priority ==> sort.clause()
            == "ORDER BY CASE i.urgency WHEN 'urgent' THEN 0 WHEN 'default' THEN 1 WHEN 'punt' THEN 2 END ASC, i.updated_at_us"@
            + direction(true),
{
    reveal_strlit("ORDER BY i.created_at_us");
    reveal_strlit("ORDER BY i.updated_at_us");
    reveal_strlit(" DESC, i.item_id ASC");
    reveal_strlit(" ASC, i.item_id ASC");
    reveal_strlit("ORDER BY i.created_at_us DESC, i.item_id ASC");
    reveal_strlit("ORDER BY i.created_at_us ASC, i.item_id ASC");
    reveal_strlit("ORDER BY i.updated_at_us DESC, i.item_id ASC");
    reveal_strlit("ORDER BY i.updated_at_us ASC, i.item_id ASC");
    reveal_strlit(
        "ORDER BY CASE i.urgency WHEN 'urgent' THEN 0 WHEN 'default' THEN 1 WHEN 'punt' THEN 2 END ASC, i.updated_at_us",
    );
    reveal_strlit(
        "ORDER BY CASE i.urgency WHEN 'urgent' THEN 0 WHEN 'default' THEN 1 WHEN 'punt' THEN 2 END ASC, i.updated_at_us DESC, i.item_id ASC",
    );
    let c = sort.clause();
    assert(sort == SortOrder::CreatedDesc ==> c =~= "ORDER BY i.created_at_us"@ + direction(true));
    assert(sort == SortOrder::CreatedAsc ==> c =~= "ORDER BY i.created_at_us"@ + direction(false));
    assert(sort == SortOrder::UpdatedDesc ==> c =~= "ORDER BY i.updated_at_us"@ + direction(true));
    assert(sort == SortOrder::UpdatedAsc ==> c =~= "ORDER BY i.updated_at_us"@ + direction(false));
    assert(sort == SortOrder::Priority ==> c
        =~= "ORDER BY CASE i.urgency WHEN 'urgent' THEN 0 WHEN 'default' THEN 1 WHEN 'punt' THEN 2 END ASC, i.updated_at_us"@
        + direction(true));
}

/// The clause of the sort stands in the listing, behind what selects the items.
pub proof fn listing_has_its_sort(f: FilterView)
    ensures
        starts_with(listing(f).sql, LIST_ITEMS@),
        starts_with(counting(f).sql, COUNT_ITEMS@),
        contains_text(listing(f).sql, " "@ + f.sort.clause()),
        listing(f).params == counting(f).params,
{
    let head = LIST_ITEMS@ + clauses(f).text();
    let part = " "@ + f.sort.clause();
    lemma_middle_occurs(head, part, page(f.limit, f.offset));
    assert(listing(f).sql =~= head + part + page(f.limit, f.offset));
    assert(listing(f).sql.take(LIST_ITEMS@.len() as int) =~= LIST_ITEMS@);
    assert(counting(f).sql.take(COUNT_ITEMS@.len() as int) =~= COUNT_ITEMS@);
}

/// An item is fetched by its name; a deleted one only if deleted ones are asked for.
pub proof fn deleted_items_are_left_out()
    ensures
        GET_ITEM@ == GET_ANY_ITEM@ + " AND is_deleted = 0"@,
        ends_with(GET_ANY_ITEM@, " FROM items WHERE item_id = ?1"@),
{
    reveal_strlit(" AND is_deleted = 0");
    reveal_strlit(" FROM items WHERE item_id = ?1");
    reveal_strlit(
        "SELECT item_id, title, description, kind, state, urgency, size, parent_id, compact_summary, is_deleted, deleted_at_us, search_labels, created_at_us, updated_at_us FROM items WHERE item_id = ?1 AND is_deleted = 0",
    );
    reveal_strlit(
        "SELECT item_id, title, description, kind, state, urgency, size, parent_id, compact_summary, is_deleted, deleted_at_us, search_labels, created_at_us, updated_at_us FROM items WHERE item_id = ?1",
    );
    assert(GET_ITEM@ =~= GET_ANY_ITEM@ + " AND is_deleted = 0"@);
    let tail = " FROM items WHERE item_id = ?1"@;
    assert(GET_ANY_ITEM@.skip(GET_ANY_ITEM@.len() - tail.len()) =~= tail);
}

/// What an item has several of is fetched by the item's name, from the table that
/// holds it and in its order. What an item depends on is found by its own name, and
/// what depends on it by the name under which others depend on it.
pub proof fn fetches_go_by_the_item()
    ensures
        ends_with(GET_COMMENTS@, " FROM item_comments WHERE item_id = ?1 ORDER BY created_at_us DESC"@),
        ends_with(GET_LABELS@, " FROM item_labels WHERE item_id = ?1 ORDER BY label"@),
        ends_with(GET_ASSIGNEES@, " FROM item_assignees WHERE item_id = ?1 ORDER BY agent"@),
        ends_with(GET_DEPENDENCIES@, " FROM item_dependencies WHERE item_id = ?1 ORDER BY depends_on_item_id"@),
        ends_with(GET_DEPENDENTS@, " FROM item_dependencies WHERE depends_on_item_id = ?1 ORDER BY item_id"@),
        ends_with(GET_CHILDREN@, " FROM items WHERE parent_id = ?1 AND is_deleted = 0 ORDER BY created_at_us ASC"@),
        ends_with(LIST_LABELS@, " FROM item_labels GROUP BY label ORDER BY count DESC, label ASC"@),
{
    lemma_tail_of_get_comments();
    lemma_tail_of_get_labels();
    lemma_tail_of_get_assignees();
    lemma_tail_of_get_dependencies();
    lemma_tail_of_get_dependents();
    lemma_tail_of_get_children();
    lemma_tail_of_list_labels();
}

#[verifier::spinoff_prover]
proof fn lemma_tail_of_get_comments()
    ensures
        ends_with(GET_COMMENTS@, " FROM item_comments WHERE item_id = ?1 ORDER BY created_at_us DESC"@),
{
    reveal_strlit(
        "SELECT comment_id, item_id, event_hash, author, body, created_at_us FROM item_comments WHERE item_id = ?1 ORDER BY created_at_us DESC",
    );
    reveal_strlit(" FROM item_comments WHERE item_id = ?1 ORDER BY created_at_us DESC");
    let tail = " FROM item_comments WHERE item_id = ?1 ORDER BY created_at_us DESC"@;
    assert(GET_COMMENTS@.skip(GET_COMMENTS@.len() - tail.len()) =~= tail);
}

#[verifier::spinoff_prover]
proof fn lemma_tail_of_get_labels()
    ensures
        ends_with(GET_LABELS@, " FROM item_labels WHERE item_id = ?1 ORDER BY label"@),
{
    reveal_strlit(
        "SELECT item_id, label, created_at_us FROM item_labels WHERE item_id = ?1 ORDER BY label",
    );
    reveal_strlit(" FROM item_labels WHERE item_id = ?1 ORDER BY label");
    let tail = " FROM item_labels WHERE item_id = ?1 ORDER BY label"@;
    assert(GET_LABELS@.skip(GET_LABELS@.len() - tail.len()) =~= tail);
}

#[verifier::spinoff_prover]
proof fn lemma_tail_of_get_assignees()
    ensures
        ends_with(GET_ASSIGNEES@, " FROM item_assignees WHERE item_id = ?1 ORDER BY agent"@),
{
    reveal_strlit(
        "SELECT item_id, agent, created_at_us FROM item_assignees WHERE item_id = ?1 ORDER BY agent",
    );
    reveal_strlit(" FROM item_assignees WHERE item_id = ?1 ORDER BY agent");
    let tail = " FROM item_assignees WHERE item_id = ?1 ORDER BY agent"@;
    assert(GET_ASSIGNEES@.skip(GET_ASSIGNEES@.len() - tail.len()) =~= tail);
}

#[verifier::spinoff_prover]
proof fn lemma_tail_of_get_dependencies()
    ensures
        ends_with(GET_DEPENDENCIES@, " FROM item_dependencies WHERE item_id = ?1 ORDER BY depends_on_item_id"@),
{
    reveal_strlit(
        "SELECT item_id, depends_on_item_id, link_type, created_at_us FROM item_dependencies WHERE item_id = ?1 ORDER BY depends_on_item_id",
    );
    reveal_strlit(" FROM item_dependencies WHERE item_id = ?1 ORDER BY depends_on_item_id");
    let tail = " FROM item_dependencies WHERE item_id = ?1 ORDER BY depends_on_item_id"@;
    assert(GET_DEPENDENCIES@.skip(GET_DEPENDENCIES@.len() - tail.len()) =~= tail);
}

#[verifier::spinoff_prover]
proof fn lemma_tail_of_get_dependents()
    ensures
        ends_with(GET_DEPENDENTS@, " FROM item_dependencies WHERE depends_on_item_id = ?1 ORDER BY item_id"@),
{
    reveal_strlit(
        "SELECT item_id, depends_on_item_id, link_type, created_at_us FROM item_dependencies WHERE depends_on_item_id = ?1 ORDER BY item_id",
    );
    reveal_strlit(" FROM item_dependencies WHERE depends_on_item_id = ?1 ORDER BY item_id");
    let tail = " FROM item_dependencies WHERE depends_on_item_id = ?1 ORDER BY item_id"@;
    assert(GET_DEPENDENTS@.skip(GET_DEPENDENTS@.len() - tail.len()) =~= tail);
}

#[verifier::spinoff_prover]
proof fn lemma_tail_of_get_children()
    ensures
        ends_with(GET_CHILDREN@, " FROM items WHERE parent_id = ?1 AND is_deleted = 0 ORDER BY created_at_us ASC"@),
{
    reveal_strlit(
        "SELECT item_id, title, description, kind, state, urgency, size, parent_id, compact_summary, is_deleted, deleted_at_us, search_labels, created_at_us, updated_at_us FROM items WHERE parent_id = ?1 AND is_deleted = 0 ORDER BY created_at_us ASC",
    );
    reveal_strlit(" FROM items WHERE parent_id = ?1 AND is_deleted = 0 ORDER BY created_at_us ASC");
    let tail = " FROM items WHERE parent_id = ?1 AND is_deleted = 0 ORDER BY created_at_us ASC"@;
    assert(GET_CHILDREN@.skip(GET_CHILDREN@.len() - tail.len()) =~= tail);
}

#[verifier::spinoff_prover]
proof fn lemma_tail_of_list_labels()
    ensures
        ends_with(LIST_LABELS@, " FROM item_labels GROUP BY label ORDER BY count DESC, label ASC"@),
{
    reveal_strlit(
        "SELECT label, COUNT(*) as count FROM item_labels GROUP BY label ORDER BY count DESC, label ASC",
    );
    reveal_strlit(" FROM item_labels GROUP BY label ORDER BY count DESC, label ASC");
    let tail = " FROM item_labels GROUP BY label ORDER BY count DESC, label ASC"@;
    assert(LIST_LABELS@.skip(LIST_LABELS@.len() - tail.len()) =~= tail);
}

}
