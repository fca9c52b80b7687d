//! Pending edits to an object's tags: how they are staged, composed and committed.
use crate::error::StoreError;
use crate::function::{json_entries, json_object_of, json_text_of, parse_json_map, write_json_map, JsonMap};
use crate::object::Object;
use crate::proto;
use crate::session::{Identity, Session};
use crate::strmap::{entries_map, StrMap, StrSet};
use crate::tag::{clone_tags, clone_value, stamped, TagValue, TagValueView, Tags, Timestamp};
use vstd::string::*;
use vstd::prelude::*;

verus! {

/// The number of points in an object's life at which core hooks attach.
pub const HOOK_POINT_COUNT: usize = 7;

/// What a pending edit holds: the names to delete, the values to write, and whether all
/// existing tags are wiped first.
pub struct EditsModel {
    pub deletes: Set<Seq<char>>,
    pub update: Map<Seq<char>, Option<Seq<char>>>,
    pub clear: bool,
}

impl EditsModel {
    /// The edit that changes nothing.
    pub open spec fn empty() -> EditsModel {
        EditsModel { deletes: Set::empty(), update: Map::empty(), clear: false }
    }

    pub open spec fn is_empty(self) -> bool {
        self.deletes == Set::<Seq<char>>::empty() && self.update == Map::<
            Seq<char>,
            Option<Seq<char>>,
        >::empty() && !self.clear
    }

    /// No name is both deleted and written.
    pub open spec fn disjoint(self) -> bool {
        forall|k: Seq<char>| !(self.deletes.contains(k) && #[trigger] self.update.contains_key(k))
    }

    /// Stages the write of `value` to `tag`.
    pub open spec fn set(self, tag: Seq<char>, value: Option<Seq<char>>) -> EditsModel {
        EditsModel {
            deletes: self.deletes.remove(tag),
            update: self.update.insert(tag, value),
            clear: self.clear,
        }
    }

    /// Stages the removal of `tag`. After a wipe the single name is not recorded.
    pub open spec fn delete(self, tag: Seq<char>) -> EditsModel {
        EditsModel {
            deletes: if self.clear {
                self.deletes
            } else {
                self.deletes.insert(tag)
            },
            update: self.update.remove(tag),
            clear: self.clear,
        }
    }

    /// Drops what was staged and stages a wipe of all tags.
    pub open spec fn cleared(self) -> EditsModel {
        EditsModel { deletes: Set::empty(), update: Map::empty(), clear: true }
    }

    /// The edit that does what `self` does and then what `other` does. A name that `other`
    /// writes is no longer deleted on behalf of `self`.
    pub open spec fn extend(self, other: EditsModel) -> EditsModel {
        let base = if other.clear {
            self.cleared()
        } else {
            self
        };
        let kept = base.deletes.difference(other.update.dom());
        EditsModel {
            deletes: if base.clear {
                kept
            } else {
                kept + other.deletes
            },
            update: base.update.remove_keys(other.deletes).union_prefer_right(other.update),
            clear: base.clear,
        }
    }

    /// The tags of an object after the edit is committed at the time `t`: wipe, then
    /// delete, then write.
    pub open spec fn apply(self, tags: Map<Seq<char>, TagValueView>, t: Timestamp) -> Map<
        Seq<char>,
        TagValueView,
    > {
        let kept = if self.clear {
            Map::empty()
        } else {
            tags
        };
        kept.remove_keys(self.deletes).union_prefer_right(stamped(self.update, t))
    }
}

/// One staging step on a pending edit.
pub enum EditOp {
    SetTag(Seq<char>, Option<Seq<char>>),
    DeleteTag(Seq<char>),
    ClearAll,
    Extend(EditsModel),
}

/// Every edit that a step of `ops` composes onto the pending edit keeps deletes and writes
/// apart.
pub open spec fn extends_disjoint(ops: Seq<EditOp>) -> bool {
    forall|i: int|
        0 <= i < ops.len() ==> (#[trigger] ops[i] matches EditOp::Extend(other) ==> other.disjoint())
}

/// The edit after the steps `ops` are taken on `e`, first to last.
pub open spec fn run_ops(e: EditsModel, ops: Seq<EditOp>) -> EditsModel
    decreases ops.len(),
{
    if ops.len() == 0 {
        e
    } else {
        let before = run_ops(e, ops.drop_last());
        match ops.last() {
            EditOp::SetTag(k, v) => before.set(k, v),
            EditOp::DeleteTag(k) => before.delete(k),
            EditOp::ClearAll => before.cleared(),
            EditOp::Extend(other) => before.extend(other),
        }
    }
}

/// Composing two edits in each of which no name is both deleted and written gives such an
/// edit again.
pub proof fn lemma_extend_keeps_disjoint(a: EditsModel, b: EditsModel)
    requires
        a.disjoint(),
        b.disjoint(),
    ensures
        a.extend(b).disjoint(),
{
    let r = a.extend(b);
    assert forall|k: Seq<char>| !(r.deletes.contains(k) && #[trigger] r.update.contains_key(k)) by {
        if r.deletes.contains(k) && r.update.contains_key(k) {
            if b.update.contains_key(k) {
                assert(b.deletes.contains(k));
            } else {
                assert(a.update.contains_key(k));
                assert(!b.deletes.contains(k));
                assert(a.deletes.contains(k));
            }
        }
    }
}

/// Whatever steps are taken on an edit in which no name is both deleted and written, no
/// name is both deleted and written afterwards, provided that the same holds of each edit
/// that a step composes onto it. The empty edit is such an edit.
pub proof fn lemma_ops_keep_disjoint(e: EditsModel, ops: Seq<EditOp>)
    requires
        e.disjoint(),
        extends_disjoint(ops),
    ensures
        run_ops(e, ops).disjoint(),
        EditsModel::empty().disjoint(),
    decreases ops.len(),
{
    if ops.len() > 0 {
        let front = ops.drop_last();
        assert forall|i: int| 0 <= i < front.len() implies (#[trigger] front[i] matches EditOp::Extend(
            other,
        ) ==> other.disjoint()) by {
            assert(front[i] == ops[i]);
        }
        lemma_ops_keep_disjoint(e, front);
        match ops.last() {
            EditOp::Extend(other) => {
                assert(ops[ops.len() - 1] == ops.last());
                lemma_extend_keeps_disjoint(run_ops(e, front), other);
            },
            _ => {},
        }
    }
}

/// Extending an edit with an empty edit leaves it as it was.
pub proof fn lemma_extend_with_empty(a: EditsModel, e: EditsModel)
    requires
        e.is_empty(),
    ensures
        a.extend(e) == a,
{
    let r = a.extend(e);
    assert(r.deletes =~= a.deletes);
    assert(r.update =~= a.update);
}

/// Extending the empty edit with an edit `e` gives an edit that does to every object what
/// `e` does. Where `e` stages no wipe, or a wipe and no deletes, it gives `e` itself.
pub proof fn lemma_extend_empty_with(e: EditsModel, tags: Map<Seq<char>, TagValueView>, t: Timestamp)
    ensures
        EditsModel::empty().extend(e).apply(tags, t) == e.apply(tags, t),
        !e.clear || e.deletes == Set::<Seq<char>>::empty() ==> EditsModel::empty().extend(e) == e,
{
    let r = EditsModel::empty().extend(e);
    assert(r.update =~= e.update);
    assert(r.apply(tags, t) =~= e.apply(tags, t));
    if !e.clear || e.deletes == Set::<Seq<char>>::empty() {
        assert(r.deletes =~= e.deletes);
    }
}

/// A later edit that stages a wipe dominates: the composed edit holds nothing of the
/// earlier one, only the wipe and the later edit's writes, and commits to just those writes.
pub proof fn lemma_clear_dominates(
    a: EditsModel,
    b: EditsModel,
    tags: Map<Seq<char>, TagValueView>,
    t: Timestamp,
)
    requires
        b.clear,
    ensures
        a.extend(b) == (EditsModel { deletes: Set::empty(), update: b.update, clear: true }),
        a.extend(b).apply(tags, t) == stamped(b.update, t),
{
    let r = a.extend(b);
    assert(r.deletes =~= Set::<Seq<char>>::empty());
    assert(r.update =~= b.update);
    assert(r.apply(tags, t) =~= stamped(b.update, t));
}

/// Committing a composed edit is committing the earlier edit and then the later one, at
/// the same time of commit.
pub proof fn lemma_extend_then_apply(
    a: EditsModel,
    b: EditsModel,
    tags: Map<Seq<char>, TagValueView>,
    t: Timestamp,
)
    ensures
        a.extend(b).apply(tags, t) == b.apply(a.apply(tags, t), t),
{
    assert(a.extend(b).apply(tags, t) =~= b.apply(a.apply(tags, t), t));
}

/// What a composed edit stages for a name: the later edit's write where it writes the
/// name; nothing where the later edit deletes the name without writing it; else, where the
/// later edit stages no wipe, what the earlier edit staged.
pub proof fn lemma_extend_update(a: EditsModel, b: EditsModel, k: Seq<char>)
    ensures
        b.update.contains_key(k) ==> a.extend(b).update.contains_key(k) && a.extend(b).update[k]
            == b.update[k],
        b.deletes.contains(k) && !b.update.contains_key(k) ==> !a.extend(b).update.contains_key(k),
        !b.clear && !b.deletes.contains(k) && !b.update.contains_key(k) ==> (a.extend(
            b,
        ).update.contains_key(k) == a.update.contains_key(k)) && (a.update.contains_key(k)
            ==> a.extend(b).update[k] == a.update[k]),
{
}

/// A pending, composable change to an object's tags.
#[derive(Debug)]
pub struct ObjectEdits {
    pub deletes: StrSet,
    pub update: Tags,
    pub clear: bool,
}

impl View for ObjectEdits {
    type V = EditsModel;

    open spec fn view(&self) -> EditsModel {
        EditsModel { deletes: self.deletes@, update: self.update@, clear: self.clear }
    }
}

impl Clone for ObjectEdits {
    fn clone(&self) -> (r: Self)
        ensures
            r@ == self@,
    {
        ObjectEdits {
            deletes: self.deletes.snapshot(),
            update: clone_tags(&self.update),
            clear: self.clear,
        }
    }
}

impl Default for ObjectEdits {
    fn default() -> (r: Self)
        ensures
            r@ == EditsModel::empty(),
    {
        ObjectEdits::new()
    }
}

impl ObjectEdits {
    /// The edits that a handler's answer stages. The answer must carry its updates; among
    /// entries for one name the last one counts.
    pub fn from_pb(pb: proto::ObjectEdits) -> (r: Result<Self, StoreError>)
        ensures
            match pb.update {
                Some(update) => r.is_ok() && r.unwrap()@ == (EditsModel {
                    deletes: names_set(pb.deletes@),
                    update: entries_map(update@),
                    clear: pb.clear,
                }),
                None => r matches Err(StoreError::MissingField { field }) && field@ == "update"@,
            },
    {
        let entries = match &pb.update {
            Some(entries) => entries,
            None => {
                return Err(StoreError::MissingField { field: String::from_str("update") });
            },
        };
        let mut deletes = StrSet::new();
        let mut i: usize = 0;
        while i < pb.deletes.len()
            invariant
                i <= pb.deletes.len(),
                deletes@ == names_set(pb.deletes@.take(i as int)),
            decreases pb.deletes.len() - i,
        {
            proof {
                let t = pb.deletes@.take(i + 1);
                assert(t.drop_last() =~= pb.deletes@.take(i as int));
                assert(t.last() == pb.deletes@[i as int]);
            }
            deletes.insert(pb.deletes[i].clone());
            i += 1;
        }
        assert(pb.deletes@.take(pb.deletes.len() as int) =~= pb.deletes@);
        let mut update: Tags = StrMap::new();
        let mut j: usize = 0;
        while j < entries.len()
            invariant
                j <= entries.len(),
                update@ == entries_map(entries@.take(j as int)),
            decreases entries.len() - j,
        {
            proof {
                let t = entries@.take(j + 1);
                assert(t.drop_last() =~= entries@.take(j as int));
                assert(t.last() == entries@[j as int]);
            }
            update.insert(entries[j].0.clone(), clone_value(&entries[j].1));
            j += 1;
        }
        assert(entries@.take(entries.len() as int) =~= entries@);
        Ok(Self { deletes, update, clear: pb.clear })
    }

    pub fn new() -> (r: Self)
        ensures
            r@ == EditsModel::empty(),
    {
        Self { deletes: StrSet::new(), update: StrMap::new(), clear: false }
    }

    pub fn is_empty(&self) -> (r: bool)
        ensures
            r == self@.is_empty(),
    {
        self.deletes.is_empty() && self.update.is_empty() && !self.clear
    }

    pub fn set(&mut self, tag: String, value: Option<String>)
        ensures
            final(self)@ == old(self)@.set(tag@, value.deep_view()),
            old(self)@.disjoint() ==> final(self)@.disjoint(),
    {
        self.deletes.remove(&tag);
        self.update.insert(tag, value);
        proof {
            if old(self)@.disjoint() {
                assert forall|k: Seq<char>|
                    !(self@.deletes.contains(k) && #[trigger] self@.update.contains_key(k)) by {
                    if k != tag@ {
                        assert(self@.update.contains_key(k) == old(self)@.update.contains_key(k));
                    }
                }
            }
        }
    }

    pub fn delete(&mut self, tag: String)
        ensures
            final(self)@ == old(self)@.delete(tag@),
            old(self)@.disjoint() ==> final(self)@.disjoint(),
    {
        self.update.remove(&tag);
        if !self.clear {
            self.deletes.insert(tag);
        }
    }

    pub fn clear(&mut self)
        ensures
            final(self)@ == old(self)@.cleared(),
            final(self)@.disjoint(),
    {
        self.deletes.clear();
        self.update.clear();
        self.clear = true;
    }

    pub fn extend(&mut self, other: ObjectEdits)
        ensures
            final(self)@ == old(self)@.extend(other@),
            old(self)@.disjoint() && other@.disjoint() ==> final(self)@.disjoint(),
    {
        if other.clear {
            self.clear();
        }
        let ghost base = self@;
        let nu = other.update.len();
        let mut h: usize = 0;
        proof {
            other.update.lemma_view();
            assert(base.deletes.difference(other.update.prefix(0).dom()) =~= base.deletes);
        }
        while h < nu
            invariant
                nu == other.update.entries().len(),
                h <= nu,
                self.clear == base.clear,
                self.update@ == base.update,
                self.deletes@ == base.deletes.difference(other.update.prefix(h as int).dom()),
            decreases nu - h,
        {
            proof {
                other.update.lemma_prefix_step(h as int);
            }
            self.deletes.remove(other.update.key_at(h));
            assert(self.deletes@ =~= base.deletes.difference(other.update.prefix(h + 1).dom()));
            h += 1;
        }
        let ghost kept = self.deletes@;
        let nd = other.deletes.len();
        let mut i: usize = 0;
        proof {
            other.deletes.lemma_view();
            assert(base.update.remove_keys(other.deletes.prefix(0)) =~= base.update);
            assert(kept + other.deletes.prefix(0) =~= kept);
        }
        while i < nd
            invariant
                nd == other.deletes.count(),
                i <= nd,
                self.clear == base.clear,
                self.deletes@ == if base.clear {
                    kept
                } else {
                    kept + other.deletes.prefix(i as int)
                },
                self.update@ == base.update.remove_keys(other.deletes.prefix(i as int)),
            decreases nd - i,
        {
            let tag = other.deletes.get_at(i).clone();
            proof {
                other.deletes.lemma_prefix_step(i as int);
            }
            self.delete(tag);
            proof {
                let q = other.deletes.prefix(i + 1);
                assert(self.update@ =~= base.update.remove_keys(q));
                if !base.clear {
                    assert(self.deletes@ =~= kept + q);
                }
            }
            i += 1;
        }
        let ghost mid = self.update@;
        let mut j: usize = 0;
        proof {
            assert(mid.union_prefer_right(other.update.prefix(0)) =~= mid);
        }
        while j < nu
            invariant
                nu == other.update.entries().len(),
                j <= nu,
                self.clear == base.clear,
                self.deletes@ == if base.clear {
                    kept
                } else {
                    kept + other.deletes@
                },
                self.update@ == mid.union_prefer_right(other.update.prefix(j as int)),
            decreases nu - j,
        {
            let k = other.update.key_at(j).clone();
            let v = clone_value(other.update.value_at(j));
            proof {
                other.update.lemma_prefix_step(j as int);
            }
            self.update.insert(k, v);
            assert(self.update@ =~= mid.union_prefer_right(other.update.prefix(j + 1)));
            j += 1;
        }
        proof {
            if old(self)@.disjoint() && other@.disjoint() {
                lemma_extend_keeps_disjoint(old(self)@, other@);
            }
        }
    }

    pub fn apply(self, object: &mut Object, time: Timestamp)
        ensures
            final(object).tags@ == self@.apply(old(object).tags@, time),
    {
        if self.clear {
            object.tags.clear();
        }
        let ghost kept = object.tags@;
        let nd = self.deletes.len();
        let mut i: usize = 0;
        proof {
            self.deletes.lemma_view();
            assert(kept.remove_keys(self.deletes.prefix(0)) =~= kept);
        }
        while i < nd
            invariant
                nd == self.deletes.count(),
                i <= nd,
                object.tags@ == kept.remove_keys(self.deletes.prefix(i as int)),
            decreases nd - i,
        {
            proof {
                self.deletes.lemma_prefix_step(i as int);
            }
            object.tags.remove(self.deletes.get_at(i));
            assert(object.tags@ =~= kept.remove_keys(self.deletes.prefix(i + 1)));
            i += 1;
        }
        let ghost mid = object.tags@;
        let nu = self.update.len();
        let mut j: usize = 0;
        proof {
            self.update.lemma_view();
            assert(mid.union_prefer_right(stamped(self.update.prefix(0), time)) =~= mid);
        }
        while j < nu
            invariant
                nu == self.update.entries().len(),
                j <= nu,
                object.tags@ == mid.union_prefer_right(stamped(self.update.prefix(j as int), time)),
            decreases nu - j,
        {
            let k = self.update.key_at(j).clone();
            let v = clone_value(self.update.value_at(j));
            proof {
                self.update.lemma_prefix_step(j as int);
            }
            object.tags.insert(k, TagValue::new(v, time));
            assert(object.tags@ =~= mid.union_prefer_right(
                stamped(self.update.prefix(j + 1), time),
            ));
            j += 1;
        }
    }
}

/// The set of the names in a list.
pub open spec fn names_set(s: Seq<String>) -> Set<Seq<char>>
    decreases s.len(),
{
    if s.len() == 0 {
        Set::empty()
    } else {
        names_set(s.drop_last()).insert(s.last()@)
    }
}

/// What a generic hook asks for.
pub enum ActionModel {
    Nothing,
    UpdateResult(Map<Seq<char>, Seq<char>>),
    UpdateArgs(Map<Seq<char>, Seq<char>>),
}

/// What a reply asks for: nothing where it carries no payload; else the flag says whether
/// the payload replaces the arguments or the result.
pub open spec fn decoded(update_args: bool, payload: Option<Map<Seq<char>, Seq<char>>>) -> ActionModel {
    match payload {
        None => ActionModel::Nothing,
        Some(m) => if update_args {
            ActionModel::UpdateArgs(m)
        } else {
            ActionModel::UpdateResult(m)
        },
    }
}

/// The answer of a generic hook: no effect, a new result for the call, or new arguments.
#[derive(Debug, PartialEq)]
pub enum HookAction {
    NoOp,
    UpdateResult(JsonMap),
    UpdateArgs(JsonMap),
}

impl View for HookAction {
    type V = ActionModel;

    open spec fn view(&self) -> ActionModel {
        match self {
            HookAction::NoOp => ActionModel::Nothing,
            HookAction::UpdateResult(m) => ActionModel::UpdateResult(json_entries(*m)),
            HookAction::UpdateArgs(m) => ActionModel::UpdateArgs(json_entries(*m)),
        }
    }
}

impl Default for HookAction {
    fn default() -> (r: Self)
        ensures
            r@ == ActionModel::Nothing,
    {
        HookAction::NoOp
    }
}

impl HookAction {
    /// The action for a reply whose payload, if it has one, is already read.
    pub fn from_parsed(update_args: bool, payload: Option<JsonMap>) -> (r: Self)
        ensures
            r@ == decoded(
                update_args,
                match payload {
                    Some(m) => Some(json_entries(m)),
                    None => None,
                },
            ),
    {
        match payload {
            Some(m) => if update_args {
                HookAction::UpdateArgs(m)
            } else {
                HookAction::UpdateResult(m)
            },
            None => HookAction::NoOp,
        }
    }

    /// The action that a handler's reply asks for. A payload that is no JSON object is an
    /// error.
    pub fn from_pb(pb: proto::HookAction) -> (r: Result<Self, StoreError>)
        ensures
            match pb.result_or_args {
                None => r.is_ok() && r.unwrap()@ == ActionModel::Nothing,
                Some(text) => match json_object_of(text@) {
                    Some(m) => r.is_ok() && r.unwrap()@ == decoded(pb.update_args, Some(m)),
                    None => r matches Err(e) && e is Parse,
                },
            },
    {
        match pb.result_or_args {
            Some(text) => {
                match parse_json_map(text) {
                    Ok(m) => Ok(Self::from_parsed(pb.update_args, Some(m))),
                    Err(e) => Err(e),
                }
            },
            None => Ok(Self::from_parsed(pb.update_args, None)),
        }
    }
}

/// On whose behalf a core hook runs: a session, or an identity without one.
pub enum Caller<'a> {
    Session(&'a mut Session),
    IdentityOnly(&'a Identity),
}

/// What a core hook is called with: the object, its previous version where there is one,
/// and the caller.
#[non_exhaustive]
pub struct CoreHookArgs<'a> {
    pub object: &'a Object,
    pub old_object: Option<&'a Object>,
    pub session: Caller<'a>,
}

impl<'a> CoreHookArgs<'a> {
    pub fn new(object: &'a Object, old_object: Option<&'a Object>, session: Caller<'a>) -> (r: Self)
        ensures
            r.object == object,
            r.old_object == old_object,
            r.session == session,
    {
        CoreHookArgs { object, old_object, session }
    }

    /// The session's token, where the call has a session.
    pub open spec fn session_token(&self) -> Option<Seq<char>> {
        match self.session {
            Caller::Session(s) => Some(s.token@),
            Caller::IdentityOnly(_) => None,
        }
    }

    /// The caller's identity, whether or not the call has a session.
    pub open spec fn caller_identity(&self) -> Identity {
        match self.session {
            Caller::Session(s) => s.identity,
            Caller::IdentityOnly(i) => *i,
        }
    }

    pub fn identity(&self) -> (r: &Identity)
        ensures
            *r == self.caller_identity(),
    {
        match &self.session {
            Caller::Session(session) => &session.identity,
            Caller::IdentityOnly(identity) => identity,
        }
    }

    /// The request that carries this call to a handler. Its call id is left at zero for
    /// the transport to fill in.
    pub fn to_pb(&self) -> (r: proto::RegCoreHookReply)
        ensures
            r.call_id == 0,
            r.object matches Some(o) && o.tags@ == self.object.tags@,
            match self.old_object {
                Some(old) => r.old_object matches Some(o) && o.tags@ == old.tags@,
                None => r.old_object.is_none(),
            },
            r.session.deep_view() == self.session_token(),
            r.identity@ == self.caller_identity().cache_token@,
    {
        let old_object = match self.old_object {
            Some(old) => Some(old.snapshot()),
            None => None,
        };
        let session = match &self.session {
            Caller::Session(s) => Some(s.token().clone()),
            Caller::IdentityOnly(_) => None,
        };
        proto::RegCoreHookReply {
            call_id: 0,
            object: Some(self.object.snapshot()),
            old_object,
            session,
            identity: self.identity().cache_token().clone(),
        }
    }
}

/// What a generic hook is called with: the call's arguments, its result where the call
/// was already made, and the session.
pub struct HookArgs<'a> {
    pub arguments: &'a JsonMap,
    pub original_result: Option<&'a JsonMap>,
    pub session: &'a mut Session,
}

impl<'a> HookArgs<'a> {
    /// The session as it stands when the call is made.
    pub open spec fn caller_session(&self) -> Session {
        *self.session
    }

    /// The request that carries this call to a handler. Its call id is left at zero for
    /// the transport to fill in.
    pub fn to_pb(&self) -> (r: proto::RegHookReply)
        ensures
            r.call_id == 0,
            r.arguments@ == json_text_of(json_entries(*self.arguments)),
            match self.original_result {
                Some(m) => r.original_result matches Some(t) && t@ == json_text_of(json_entries(*m)),
                None => r.original_result.is_none(),
            },
            r.session@ == self.caller_session().token@,
            r.identity@ == self.caller_session().identity.cache_token@,
    {
        let original_result = match self.original_result {
            Some(m) => Some(write_json_map(m)),
            None => None,
        };
        proto::RegHookReply {
            call_id: 0,
            arguments: write_json_map(self.arguments),
            original_result,
            session: self.session.token().clone(),
            identity: self.session.identity.cache_token().clone(),
        }
    }
}

} // verus!
