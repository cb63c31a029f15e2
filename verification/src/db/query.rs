//! Queries of the projection database.
//!
//! Each function makes the statement that answers one question: which items
//! match a filter, what hangs on an item, how many of a kind there are. The rows
//! come back as the structs of this module.

use crate::db::statement::{bounds, Bound, Command, Param, Statement};
use crate::text::decimal::{nat_text, u64_text};
use crate::text::slice::{
    copy_opt, join, join_strings, lowered, opt_view, str_ascii_lower, str_eq, str_trim,
    string_views, trim,
};
use std::collections::HashMap;
use std::str::FromStr;
use vstd::prelude::*;

verus! {

/// A projected work item row from the `items` table.
#[derive(Debug, Clone, PartialEq, Eq)]
pub struct QueryItem {
    pub item_id: String,
    pub title: String,
    pub description: Option<String>,
    pub kind: String,
    pub state: String,
    pub urgency: String,
    pub size: Option<String>,
    pub parent_id: Option<String>,
    pub compact_summary: Option<String>,
    pub is_deleted: bool,
    pub deleted_at_us: Option<i64>,
    pub search_labels: String,
    pub created_at_us: i64,
    pub updated_at_us: i64,
}

/// A comment attached to a work item.
#[derive(Debug, Clone, PartialEq, Eq)]
pub struct QueryComment {
    pub comment_id: i64,
    pub item_id: String,
    pub event_hash: String,
    pub author: String,
    pub body: String,
    pub created_at_us: i64,
}

/// A dependency edge between two items.
#[derive(Debug, Clone, PartialEq, Eq)]
pub struct QueryDependency {
    pub item_id: String,
    pub depends_on_item_id: String,
    pub link_type: String,
    pub created_at_us: i64,
}

/// A label attached to an item.
#[derive(Debug, Clone, PartialEq, Eq)]
pub struct QueryLabel {
    pub item_id: String,
    pub label: String,
    pub created_at_us: i64,
}

/// Global label inventory row with usage count.
#[derive(Debug, Clone, PartialEq, Eq)]
pub struct LabelCount {
    pub name: String,
    pub count: usize,
}

/// An assignee of an item.
#[derive(Debug, Clone, PartialEq, Eq)]
pub struct QueryAssignee {
    pub item_id: String,
    pub agent: String,
    pub created_at_us: i64,
}

/// Aggregate counters for project-level stats used by reporting commands.
#[derive(Debug, Clone, PartialEq, Eq)]
pub struct ProjectStats {
    /// Open items by state (excluding deleted).
    pub by_state: HashMap<String, usize>,
    /// Open items by kind (excluding deleted).
    pub by_kind: HashMap<String, usize>,
    /// Open items by urgency (excluding deleted).
    pub by_urgency: HashMap<String, usize>,
    /// Events by type from the projected event tracker (empty when unavailable).
    pub events_by_type: HashMap<String, usize>,
    /// Events by agent from the projected event tracker (empty when unavailable).
    pub events_by_agent: HashMap<String, usize>,
}

/// Sort order for item listings.
#[derive(Debug, Clone, Copy, PartialEq, Eq, Structural)]
pub enum SortOrder {
    /// Most recently created first.
    CreatedDesc,
    /// Oldest first.
    CreatedAsc,
    /// Most recently updated first.
    UpdatedDesc,
    /// Oldest update first.
    UpdatedAsc,
    /// Urgency order: urgent > default > punt, then `updated_at` DESC.
    Priority,
}

pub const ORDER_CREATED_DESC: &'static str = "ORDER BY i.created_at_us DESC, i.item_id ASC";

pub const ORDER_CREATED_ASC: &'static str = "ORDER BY i.created_at_us ASC, i.item_id ASC";

pub const ORDER_UPDATED_DESC: &'static str = "ORDER BY i.updated_at_us DESC, i.item_id ASC";

pub const ORDER_UPDATED_ASC: &'static str = "ORDER BY i.updated_at_us ASC, i.item_id ASC";

pub const ORDER_PRIORITY: &'static str = "ORDER BY CASE i.urgency WHEN 'urgent' THEN 0 WHEN 'default' THEN 1 WHEN 'punt' THEN 2 END ASC, i.updated_at_us DESC, i.item_id ASC";

pub const SORT_ORDERS: &'static str = "': expected one of created_desc, created_asc, updated_desc, updated_asc, priority";

impl SortOrder {
    /// The clause that sorts a listing.
    pub open spec fn clause(self) -> Seq<char> {
        match self {
            SortOrder::CreatedDesc => ORDER_CREATED_DESC@,
            SortOrder::CreatedAsc => ORDER_CREATED_ASC@,
            SortOrder::UpdatedDesc => ORDER_UPDATED_DESC@,
            SortOrder::UpdatedAsc => ORDER_UPDATED_ASC@,
            SortOrder::Priority => ORDER_PRIORITY@,
        }
    }

    /// The name of the order.
    pub open spec fn name(self) -> Seq<char> {
        match self {
            SortOrder::CreatedDesc => "created_desc"@,
            SortOrder::CreatedAsc => "created_asc"@,
            SortOrder::UpdatedDesc => "updated_desc"@,
            SortOrder::UpdatedAsc => "updated_asc"@,
            SortOrder::Priority => "priority"@,
        }
    }

    /// The order that a word stands for.
    pub open spec fn named(s: Seq<char>) -> Option<SortOrder> {
        if s == "created_desc"@ || s == "created-desc"@ || s == "newest"@ {
            Some(SortOrder::CreatedDesc)
        } else if s == "created_asc"@ || s == "created-asc"@ || s == "oldest"@ {
            Some(SortOrder::CreatedAsc)
        } else if s == "updated_desc"@ || s == "updated-desc"@ || s == "recent"@ {
            Some(SortOrder::UpdatedDesc)
        } else if s == "updated_asc"@ || s == "updated-asc"@ || s == "stale"@ {
            Some(SortOrder::UpdatedAsc)
        } else if s == "priority"@ || s == "triage"@ {
            Some(SortOrder::Priority)
        } else {
            None
        }
    }

    fn sql_clause(self) -> (r: &'static str)
        ensures
            r@ == self.clause(),
    {
        match self {
            SortOrder::CreatedDesc => ORDER_CREATED_DESC,
            SortOrder::CreatedAsc => ORDER_CREATED_ASC,
            SortOrder::UpdatedDesc => ORDER_UPDATED_DESC,
            SortOrder::UpdatedAsc => ORDER_UPDATED_ASC,
            SortOrder::Priority => ORDER_PRIORITY,
        }
    }

    /// Returns the name of the order.
    pub fn to_string(&self) -> (r: String)
        ensures
            r@ == self.name(),
    {
        match self {
            SortOrder::CreatedDesc => "created_desc".to_owned(),
            SortOrder::CreatedAsc => "created_asc".to_owned(),
            SortOrder::UpdatedDesc => "updated_desc".to_owned(),
            SortOrder::UpdatedAsc => "updated_asc".to_owned(),
            SortOrder::Priority => "priority".to_owned(),
        }
    }

    /// Reads an order from its name or another word for it. Space around the
    /// word and the case of ASCII letters do not matter.
    pub fn from_str(s: &str) -> (r: Result<SortOrder, String>)
        ensures
            match SortOrder::named(lowered(trim(s@))) {
                Some(order) => r == Ok::<SortOrder, String>(order),
                None => r is Err && r->Err_0@ == "unknown sort order '"@ + lowered(trim(s@))
                    + SORT_ORDERS@,
            },
    {
        let lower = str_ascii_lower(str_trim(s));
        let word = lower.as_str();
        if str_eq(word, "created_desc") || str_eq(word, "created-desc") || str_eq(word, "newest") {
            Ok(SortOrder::CreatedDesc)
        } else if str_eq(word, "created_asc") || str_eq(word, "created-asc") || str_eq(
            word,
            "oldest",
        ) {
            Ok(SortOrder::CreatedAsc)
        } else if str_eq(word, "updated_desc") || str_eq(word, "updated-desc") || str_eq(
            word,
            "recent",
        ) {
            Ok(SortOrder::UpdatedDesc)
        } else if str_eq(word, "updated_asc") || str_eq(word, "updated-asc") || str_eq(
            word,
            "stale",
        ) {
            Ok(SortOrder::UpdatedAsc)
        } else if str_eq(word, "priority") || str_eq(word, "triage") {
            Ok(SortOrder::Priority)
        } else {
            let mut message = "unknown sort order '".to_owned();
            message.append(word);
            message.append(SORT_ORDERS);
            Err(message)
        }
    }

    /// Every order is read back from its name.
    pub proof fn name_reads_back(self)
        ensures
            SortOrder::named(self.name()) == Some(self),
            lowered(trim(self.name())) == self.name(),
    {
        reveal_strlit("created_desc");
        reveal_strlit("created-desc");
        reveal_strlit("newest");
        reveal_strlit("created_asc");
        reveal_strlit("created-asc");
        reveal_strlit("oldest");
        reveal_strlit("updated_desc");
        reveal_strlit("updated-desc");
        reveal_strlit("recent");
        reveal_strlit("updated_asc");
        reveal_strlit("updated-asc");
        reveal_strlit("stale");
        reveal_strlit("priority");
        reveal_strlit("triage");
        let n = self.name();
        assert(trim(n) =~= n);
        assert(lowered(n) =~= n);
    }
}

impl FromStr for SortOrder {
    type Err = String;

    fn from_str(s: &str) -> (r: Result<SortOrder, String>)
        ensures
            match SortOrder::named(lowered(trim(s@))) {
                Some(order) => r == Ok::<SortOrder, String>(order),
                None => r is Err && r->Err_0@ == "unknown sort order '"@ + lowered(trim(s@))
                    + SORT_ORDERS@,
            },
    {
        SortOrder::from_str(s)
    }
}

impl Default for SortOrder {
    fn default() -> (r: SortOrder)
        ensures
            r == SortOrder::UpdatedDesc,
    {
        SortOrder::UpdatedDesc
    }
}

/// Filter criteria for item listings.
///
/// All fields are optional. When multiple fields are set, they are combined
/// with AND semantics.
#[derive(Debug)]
pub struct ItemFilter {
    /// Filter by lifecycle state (exact match).
    pub state: Option<String>,
    /// Filter by item kind (exact match).
    pub kind: Option<String>,
    /// Filter by urgency (exact match).
    pub urgency: Option<String>,
    /// Filter by label (item must have this label).
    pub label: Option<String>,
    /// Filter by assignee (item must be assigned to this agent).
    pub assignee: Option<String>,
    /// Filter by `parent_id` (exact match).
    pub parent_id: Option<String>,
    /// Include soft-deleted items (default: false).
    pub include_deleted: bool,
    /// Maximum number of results.
    pub limit: Option<u32>,
    /// Offset for pagination.
    pub offset: Option<u32>,
    /// Sort order.
    pub sort: SortOrder,
}

/// What a filter holds.
pub ghost struct FilterView {
    pub state: Option<Seq<char>>,
    pub kind: Option<Seq<char>>,
    pub urgency: Option<Seq<char>>,
    pub label: Option<Seq<char>>,
    pub assignee: Option<Seq<char>>,
    pub parent_id: Option<Seq<char>>,
    pub include_deleted: bool,
    pub limit: Option<u32>,
    pub offset: Option<u32>,
    pub sort: SortOrder,
}

impl View for ItemFilter {
    type V = FilterView;

    open spec fn view(&self) -> FilterView {
        FilterView {
            state: opt_view(self.state),
            kind: opt_view(self.kind),
            urgency: opt_view(self.urgency),
            label: opt_view(self.label),
            assignee: opt_view(self.assignee),
            parent_id: opt_view(self.parent_id),
            include_deleted: self.include_deleted,
            limit: self.limit,
            offset: self.offset,
            sort: self.sort,
        }
    }
}

impl Default for ItemFilter {
    fn default() -> (r: ItemFilter)
        ensures
            r@ == (FilterView {
                state: None,
                kind: None,
                urgency: None,
                label: None,
                assignee: None,
                parent_id: None,
                include_deleted: false,
                limit: None,
                offset: None,
                sort: SortOrder::UpdatedDesc,
            }),
    {
        ItemFilter {
            state: None,
            kind: None,
            urgency: None,
            label: None,
            assignee: None,
            parent_id: None,
            include_deleted: false,
            limit: None,
            offset: None,
            sort: SortOrder::UpdatedDesc,
        }
    }
}

impl Clone for ItemFilter {
    fn clone(&self) -> (r: ItemFilter)
        ensures
            r@ == self@,
    {
        ItemFilter {
            state: copy_opt(&self.state),
            kind: copy_opt(&self.kind),
            urgency: copy_opt(&self.urgency),
            label: copy_opt(&self.label),
            assignee: copy_opt(&self.assignee),
            parent_id: copy_opt(&self.parent_id),
            include_deleted: self.include_deleted,
            limit: self.limit,
            offset: self.offset,
            sort: self.sort,
        }
    }
}

/// The parts of a statement that a filter contributes.
#[verifier::ext_equal]
pub ghost struct Clauses {
    pub joins: Seq<char>,
    pub conditions: Seq<Seq<char>>,
    pub params: Seq<Bound>,
}

impl Clauses {
    /// With a condition that a column equals a value, if there is one.
    pub open spec fn matching(self, column: Seq<char>, value: Option<Seq<char>>) -> Clauses {
        match value {
            Some(v) => Clauses {
                conditions: self.conditions.push(column + nat_text(self.params.len() + 1)),
                params: self.params.push(Bound::Text(v)),
                ..self
            },
            None => self,
        }
    }

    /// With a join to rows that hold a value, if there is one.
    pub open spec fn joined(self, table: Seq<char>, value: Option<Seq<char>>) -> Clauses {
        match value {
            Some(v) => Clauses {
                joins: self.joins + table + nat_text(self.params.len() + 1),
                params: self.params.push(Bound::Text(v)),
                ..self
            },
            None => self,
        }
    }

    /// The joins and the conditions as they follow the table.
    pub open spec fn text(self) -> Seq<char> {
        if self.conditions.len() == 0 {
            self.joins
        } else {
            self.joins + " WHERE "@ + join(self.conditions, " AND "@)
        }
    }
}

pub const JOIN_LABELS: &'static str = " INNER JOIN item_labels il ON il.item_id = i.item_id AND il.label = ?";

pub const JOIN_ASSIGNEES: &'static str = " INNER JOIN item_assignees ia ON ia.item_id = i.item_id AND ia.agent = ?";

pub const NOT_DELETED: &'static str = "i.is_deleted = 0";

/// The parts of a statement that a filter contributes.
pub open spec fn clauses(f: FilterView) -> Clauses {
    Clauses {
        joins: Seq::empty(),
        conditions: if f.include_deleted {
            Seq::empty()
        } else {
            seq![NOT_DELETED@]
        },
        params: Seq::empty(),
    }.matching("i.state = ?"@, f.state).matching("i.kind = ?"@, f.kind).matching(
        "i.urgency = ?"@,
        f.urgency,
    ).matching("i.parent_id = ?"@, f.parent_id).joined(JOIN_LABELS@, f.label).joined(
        JOIN_ASSIGNEES@,
        f.assignee,
    )
}

/// The clause that cuts out a page.
pub open spec fn page(limit: Option<u32>, offset: Option<u32>) -> Seq<char> {
    match (limit, offset) {
        (Some(limit), Some(offset)) => " LIMIT "@ + nat_text(limit as nat) + " OFFSET "@ + nat_text(
            offset as nat,
        ),
        (Some(limit), None) => " LIMIT "@ + nat_text(limit as nat),
        (None, Some(offset)) => " LIMIT -1 OFFSET "@ + nat_text(offset as nat),
        (None, None) => Seq::empty(),
    }
}

pub const LIST_ITEMS: &'static str = "SELECT i.item_id, i.title, i.description, i.kind, i.state, i.urgency, i.size, i.parent_id, i.compact_summary, i.is_deleted, i.deleted_at_us, i.search_labels, i.created_at_us, i.updated_at_us FROM items i";

pub const COUNT_ITEMS: &'static str = "SELECT COUNT(*) FROM items i";

pub const LIST_LABELS: &'static str = "SELECT label, COUNT(*) as count FROM item_labels GROUP BY label ORDER BY count DESC, label ASC";

pub const GET_COMMENTS: &'static str = "SELECT comment_id, item_id, event_hash, author, body, created_at_us FROM item_comments WHERE item_id = ?1 ORDER BY created_at_us DESC";

pub const GET_ITEM: &'static str = "SELECT item_id, title, description, kind, state, urgency, size, parent_id, compact_summary, is_deleted, deleted_at_us, search_labels, created_at_us, updated_at_us FROM items WHERE item_id = ?1 AND is_deleted = 0";

pub const GET_ANY_ITEM: &'static str = "SELECT item_id, title, description, kind, state, urgency, size, parent_id, compact_summary, is_deleted, deleted_at_us, search_labels, created_at_us, updated_at_us FROM items WHERE item_id = ?1";

pub const GET_LABELS: &'static str = "SELECT item_id, label, created_at_us FROM item_labels WHERE item_id = ?1 ORDER BY label";

pub const GET_ASSIGNEES: &'static str = "SELECT item_id, agent, created_at_us FROM item_assignees WHERE item_id = ?1 ORDER BY agent";

pub const GET_DEPENDENCIES: &'static str = "SELECT item_id, depends_on_item_id, link_type, created_at_us FROM item_dependencies WHERE item_id = ?1 ORDER BY depends_on_item_id";

pub const GET_DEPENDENTS: &'static str = "SELECT item_id, depends_on_item_id, link_type, created_at_us FROM item_dependencies WHERE depends_on_item_id = ?1 ORDER BY item_id";

pub const GET_CHILDREN: &'static str = "SELECT item_id, title, description, kind, state, urgency, size, parent_id, compact_summary, is_deleted, deleted_at_us, search_labels, created_at_us, updated_at_us FROM items WHERE parent_id = ?1 AND is_deleted = 0 ORDER BY created_at_us ASC";

pub const ITEM_EXISTS: &'static str = "SELECT EXISTS(SELECT 1 FROM items WHERE item_id = ?1)";

pub const GET_CURSOR: &'static str = "SELECT last_event_offset, last_event_hash FROM projection_meta WHERE id = 1";

pub const UPDATE_CURSOR: &'static str = "UPDATE projection_meta SET last_event_offset = ?1, last_event_hash = ?2, last_rebuild_at_us = ?3 WHERE id = 1";

pub const TABLE_EXISTS: &'static str = "SELECT EXISTS(SELECT 1 FROM sqlite_master WHERE type='table' AND name = ?1)";

/// The statement that lists the items that match a filter.
pub open spec fn listing(f: FilterView) -> Command {
    Command {
        sql: LIST_ITEMS@ + clauses(f).text() + " "@ + f.sort.clause() + page(f.limit, f.offset),
        params: clauses(f).params,
    }
}

/// The statement that counts the items that match a filter.
pub open spec fn counting(f: FilterView) -> Command {
    Command { sql: COUNT_ITEMS@ + clauses(f).text(), params: clauses(f).params }
}

/// The parts of a statement under construction.
struct Draft {
    joins: String,
    conditions: Vec<String>,
    params: Vec<Param>,
}

impl Draft {
    spec fn clauses(self) -> Clauses {
        Clauses {
            joins: self.joins@,
            conditions: string_views(self.conditions@),
            params: bounds(self.params@),
        }
    }

    fn add_match(&mut self, column: &str, value: &Option<String>)
        requires
            old(self).params.len() < 6,
        ensures
            final(self).clauses() == old(self).clauses().matching(column@, opt_view(*value)),
            final(self).params.len() <= old(self).params.len() + 1,
    {
        if let Some(v) = value {
            let ghost before = self.clauses();
            let mut condition = column.to_owned();
            condition.append(u64_text((self.params.len() + 1) as u64).as_str());
            self.conditions.push(condition);
            self.params.push(Param::Text(v.clone()));
            assert(self.clauses() =~= before.matching(column@, Some(v@)));
        }
    }

    fn add_join(&mut self, table: &str, value: &Option<String>)
        requires
            old(self).params.len() < 6,
        ensures
            final(self).clauses() == old(self).clauses().joined(table@, opt_view(*value)),
            final(self).params.len() <= old(self).params.len() + 1,
    {
        if let Some(v) = value {
            let ghost before = self.clauses();
            self.joins.append(table);
            self.joins.append(u64_text((self.params.len() + 1) as u64).as_str());
            self.params.push(Param::Text(v.clone()));
            assert(self.clauses() =~= before.joined(table@, Some(v@)));
        }
    }

    fn of(filter: &ItemFilter) -> (r: Draft)
        ensures
            r.clauses() == clauses(filter@),
    {
        let mut conditions: Vec<String> = Vec::new();
        if !filter.include_deleted {
            conditions.push(NOT_DELETED.to_owned());
        }
        let mut draft = Draft { joins: String::new(), conditions, params: Vec::new() };
        assert(draft.clauses() =~= (Clauses {
            joins: Seq::empty(),
            conditions: if filter.include_deleted {
                Seq::empty()
            } else {
                seq![NOT_DELETED@]
            },
            params: Seq::empty(),
        }));
        draft.add_match("i.state = ?", &filter.state);
        draft.add_match("i.kind = ?", &filter.kind);
        draft.add_match("i.urgency = ?", &filter.urgency);
        draft.add_match("i.parent_id = ?", &filter.parent_id);
        draft.add_join(JOIN_LABELS, &filter.label);
        draft.add_join(JOIN_ASSIGNEES, &filter.assignee);
        draft
    }

    fn text(&self) -> (r: String)
        ensures
            r@ == self.clauses().text(),
    {
        let mut r = self.joins.clone();
        if self.conditions.len() > 0 {
            r.append(" WHERE ");
            r.append(join_strings(&self.conditions, " AND ").as_str());
        }
        r
    }
}

/// Makes the clause that cuts out a page.
fn limit_clause(limit: Option<u32>, offset: Option<u32>) -> (r: String)
    ensures
        r@ == page(limit, offset),
{
    match (limit, offset) {
        (Some(limit), Some(offset)) => {
            let mut r = " LIMIT ".to_owned();
            r.append(u64_text(limit as u64).as_str());
            r.append(" OFFSET ");
            r.append(u64_text(offset as u64).as_str());
            r
        },
        (Some(limit), None) => {
            let mut r = " LIMIT ".to_owned();
            r.append(u64_text(limit as u64).as_str());
            r
        },
        (None, Some(offset)) => {
            let mut r = " LIMIT -1 OFFSET ".to_owned();
            r.append(u64_text(offset as u64).as_str());
            r
        },
        (None, None) => {
            let r = String::new();
            assert(r@ =~= Seq::empty());
            r
        },
    }
}

/// Makes the statement that lists the items that match a filter, in the
/// requested order and page.
pub fn list_items(filter: &ItemFilter) -> (r: Statement)
    ensures
        r@ == listing(filter@),
{
    let draft = Draft::of(filter);
    let mut sql = LIST_ITEMS.to_owned();
    sql.append(draft.text().as_str());
    sql.append(" ");
    sql.append(filter.sort.sql_clause());
    sql.append(limit_clause(filter.limit, filter.offset).as_str());
    Statement { sql, params: draft.params }
}

/// Makes the statement that counts the items that match a filter.
pub fn count_items(filter: &ItemFilter) -> (r: Statement)
    ensures
        r@ == counting(filter@),
{
    let draft = Draft::of(filter);
    let mut sql = COUNT_ITEMS.to_owned();
    sql.append(draft.text().as_str());
    Statement { sql, params: draft.params }
}

/// A listing and a count with one filter select by the same clauses with the
/// same parameters: order and page aside, what is counted is what is listed.
pub proof fn count_selects_what_list_selects(f: FilterView)
    ensures
        listing(f).params == counting(f).params,
        counting(f).sql == COUNT_ITEMS@ + clauses(f).text(),
        listing(f).sql == LIST_ITEMS@ + clauses(f).text() + " "@ + f.sort.clause() + page(
            f.limit,
            f.offset,
        ),
{
}

/// A statement has one parameter for each criterion that a filter sets: state,
/// kind, urgency, parent, label and assignee, in this order.
pub proof fn criteria_are_bound_in_order(f: FilterView)
    ensures
        clauses(f).params == bound_some(f.state) + bound_some(f.kind) + bound_some(f.urgency)
            + bound_some(f.parent_id) + bound_some(f.label) + bound_some(f.assignee),
{
    assert(clauses(f).params =~= bound_some(f.state) + bound_some(f.kind) + bound_some(f.urgency)
        + bound_some(f.parent_id) + bound_some(f.label) + bound_some(f.assignee));
}

/// The parameter of a criterion, if it is set.
pub open spec fn bound_some(value: Option<Seq<char>>) -> Seq<Bound> {
    match value {
        Some(v) => seq![Bound::Text(v)],
        None => Seq::empty(),
    }
}

/// Makes a statement whose only parameter is a text.
fn about(sql: &str, id: &str) -> (r: Statement)
    ensures
        r@ == (Command { sql: sql@, params: seq![Bound::Text(id@)] }),
{
    let r = Statement::new(sql, vec![Param::text(id)]);
    assert(r@.params =~= seq![Bound::Text(id@)]);
    r
}

/// Makes the statement that fetches one item; deleted items only if asked for.
pub fn get_item(item_id: &str, include_deleted: bool) -> (r: Statement)
    ensures
        r@ == (Command {
            sql: if include_deleted {
                GET_ANY_ITEM@
            } else {
                GET_ITEM@
            },
            params: seq![Bound::Text(item_id@)],
        }),
{
    about(if include_deleted { GET_ANY_ITEM } else { GET_ITEM }, item_id)
}

/// Makes the statement that fetches the labels of an item.
pub fn get_labels(item_id: &str) -> (r: Statement)
    ensures
        r@ == (Command { sql: GET_LABELS@, params: seq![Bound::Text(item_id@)] }),
{
    about(GET_LABELS, item_id)
}

/// Makes the statement that lists all labels with the number of their uses.
pub fn list_labels(limit: Option<u32>, offset: Option<u32>) -> (r: Statement)
    ensures
        r@ == (Command { sql: LIST_LABELS@ + page(limit, offset), params: Seq::empty() }),
{
    let mut sql = LIST_LABELS.to_owned();
    sql.append(limit_clause(limit, offset).as_str());
    let r = Statement { sql, params: Vec::new() };
    assert(r@.params =~= Seq::empty());
    r
}

/// Makes the statement that fetches the assignees of an item.
pub fn get_assignees(item_id: &str) -> (r: Statement)
    ensures
        r@ == (Command { sql: GET_ASSIGNEES@, params: seq![Bound::Text(item_id@)] }),
{
    about(GET_ASSIGNEES, item_id)
}

/// Makes the statement that fetches the comments of an item, newest first.
pub fn get_comments(item_id: &str, limit: Option<u32>, offset: Option<u32>) -> (r: Statement)
    ensures
        r@ == (Command {
            sql: GET_COMMENTS@ + page(limit, offset),
            params: seq![Bound::Text(item_id@)],
        }),
{
    let mut sql = GET_COMMENTS.to_owned();
    sql.append(limit_clause(limit, offset).as_str());
    about(sql.as_str(), item_id)
}

/// Makes the statement that fetches what an item depends on.
pub fn get_dependencies(item_id: &str) -> (r: Statement)
    ensures
        r@ == (Command { sql: GET_DEPENDENCIES@, params: seq![Bound::Text(item_id@)] }),
{
    about(GET_DEPENDENCIES, item_id)
}

/// Makes the statement that fetches what depends on an item.
pub fn get_dependents(item_id: &str) -> (r: Statement)
    ensures
        r@ == (Command { sql: GET_DEPENDENTS@, params: seq![Bound::Text(item_id@)] }),
{
    about(GET_DEPENDENTS, item_id)
}

/// Makes the statement that fetches the children of an item.
pub fn get_children(parent_id: &str) -> (r: Statement)
    ensures
        r@ == (Command { sql: GET_CHILDREN@, params: seq![Bound::Text(parent_id@)] }),
{
    about(GET_CHILDREN, parent_id)
}

/// Makes the statement that tells whether an item exists.
pub fn item_exists(item_id: &str) -> (r: Statement)
    ensures
        r@ == (Command { sql: ITEM_EXISTS@, params: seq![Bound::Text(item_id@)] }),
{
    about(ITEM_EXISTS, item_id)
}

/// Makes the statement that tells whether a table exists.
pub fn table_exists(table: &str) -> (r: Statement)
    ensures
        r@ == (Command { sql: TABLE_EXISTS@, params: seq![Bound::Text(table@)] }),
{
    about(TABLE_EXISTS, table)
}

/// Makes the statement that fetches the projection cursor.
pub fn get_projection_cursor() -> (r: Statement)
    ensures
        r@ == (Command { sql: GET_CURSOR@, params: Seq::empty() }),
{
    let r = Statement::new(GET_CURSOR, Vec::new());
    assert(r@.params =~= Seq::empty());
    r
}

/// Makes the statement that moves the projection cursor.
pub fn update_projection_cursor(offset: i64, event_hash: Option<&str>, now_us: i64) -> (r:
    Statement)
    ensures
        r@ == (Command {
            sql: UPDATE_CURSOR@,
            params: seq![
                Bound::Int(offset),
                match event_hash {
                    Some(hash) => Bound::Text(hash@),
                    None => Bound::Null,
                },
                Bound::Int(now_us),
            ],
        }),
{
    let r = Statement::new(
        UPDATE_CURSOR,
        vec![Param::Int(offset), Param::opt(event_hash), Param::Int(now_us)],
    );
    assert(r@.params =~= seq![
        Bound::Int(offset),
        match event_hash {
            Some(hash) => Bound::Text(hash@),
            None => Bound::Null,
        },
        Bound::Int(now_us),
    ]);
    r
}

/// The columns by which items are counted.
#[derive(Debug, Clone, Copy, PartialEq, Eq, Structural)]
pub enum ItemColumn {
    State,
    Kind,
    Urgency,
}

impl ItemColumn {
    /// The name of the column.
    pub open spec fn name(self) -> Seq<char> {
        match self {
            ItemColumn::State => "state"@,
            ItemColumn::Kind => "kind"@,
            ItemColumn::Urgency => "urgency"@,
        }
    }
}

/// Makes the statement that counts the items that are not deleted by a column.
pub fn count_items_grouped(column: ItemColumn) -> (r: Statement)
    ensures
        r@ == (Command {
            sql: "SELECT "@ + column.name()
                + ", COUNT(*) FROM items WHERE is_deleted = 0 GROUP BY "@ + column.name(),
            params: Seq::empty(),
        }),
{
    let name = match column {
        ItemColumn::State => "state",
        ItemColumn::Kind => "kind",
        ItemColumn::Urgency => "urgency",
    };
    let mut sql = "SELECT ".to_owned();
    sql.append(name);
    sql.append(", COUNT(*) FROM items WHERE is_deleted = 0 GROUP BY ");
    sql.append(name);
    let r = Statement { sql, params: Vec::new() };
    assert(r@.params =~= Seq::empty());
    r
}

/// The columns by which projected events are counted.
#[derive(Debug, Clone, Copy, PartialEq, Eq, Structural)]
pub enum EventColumn {
    EventType,
    Agent,
}

impl EventColumn {
    /// The name of the column.
    pub open spec fn name(self) -> Seq<char> {
        match self {
            EventColumn::EventType => "event_type"@,
            EventColumn::Agent => "agent"@,
        }
    }

    /// Returns the name of the column.
    pub fn as_str(self) -> (r: &'static str)
        ensures
            r@ == self.name(),
    {
        match self {
            EventColumn::EventType => "event_type",
            EventColumn::Agent => "agent",
        }
    }
}

/// Makes the statement that counts projected events by a column, given the
/// columns of the tracking table, or none if there is no such table. There is no
/// statement, and so no count, where the table or the column is missing.
pub fn count_grouped_events(group_by: EventColumn, columns: &Option<Vec<String>>) -> (r: Option<
    Statement,
>)
    ensures
        match r {
            Some(s) => *columns is Some && string_views(columns->0@).contains(group_by.name()) && s@
                == (Command {
                sql: "SELECT "@ + group_by.name() + ", COUNT(*) FROM projected_events WHERE "@
                    + group_by.name() + " IS NOT NULL GROUP BY "@ + group_by.name(),
                params: Seq::empty(),
            }),
            None => *columns is None || !string_views(columns->0@).contains(group_by.name()),
        },
{
    let name = group_by.as_str();
    match columns {
        None => None,
        Some(names) => {
            let mut i: usize = 0;
            while i < names.len()
                invariant
                    i <= names.len(),
                    name@ == group_by.name(),
                    *columns == Some(*names),
                    forall|k: int| 0 <= k < i ==> #[trigger] string_views(names@)[k] != name@,
                decreases names.len() - i,
            {
                assert(string_views(names@)[i as int] == names[i as int]@);
                if str_eq(names[i].as_str(), name) {
                    let mut sql = "SELECT ".to_owned();
                    sql.append(name);
                    sql.append(", COUNT(*) FROM projected_events WHERE ");
                    sql.append(name);
                    sql.append(" IS NOT NULL GROUP BY ");
                    sql.append(name);
                    let r = Statement { sql, params: Vec::new() };
                    assert(r@.params =~= Seq::empty());
                    return Some(r);
                }
                i += 1;
            }
            None
        },
    }
}

/// Reads a count of rows; a count that does not fit is the largest number.
pub fn row_count(count: i64) -> (r: usize)
    ensures
        r == if 0 <= count <= usize::MAX {
            count as usize
        } else {
            usize::MAX
        },
{
    if 0 <= count && (count as u64) <= (usize::MAX as u64) {
        count as usize
    } else {
        usize::MAX
    }
}

/// Reads a count of rows; a negative count is zero.
pub fn total_count(count: i64) -> (r: u64)
    ensures
        r == if count >= 0 {
            count as u64
        } else {
            0
        },
{
    if count >= 0 {
        count as u64
    } else {
        0
    }
}

}
