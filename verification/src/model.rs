//! The data model: named top-level values, plus a transient alias table for
//! loop-variable bindings, with dotted-path member lookup.

use crate::text::split_char;
use crate::text::split_on;
use crate::value::MemberV;
use crate::value::Value;
use crate::value::ValueV;
use crate::value::Member;
use crate::value::view_members;
use crate::value::view_values;
use vstd::prelude::*;

verus! {

/// A named top-level value held by the model.
pub struct Param {
    pub name: String,
    pub value: Value,
}

/// What part of its target an alias stands for.
pub enum Identifier {
    /// One element of a list-typed target.
    Index(usize),
    /// The whole target.
    Whole,
}

/// A loop-variable binding: `name` stands for the `identifier` part of the
/// param named `target`.
pub struct Alias {
    pub name: String,
    pub target: String,
    pub identifier: Identifier,
}

/// The model: params and the alias table.
///
/// The alias table is global to the model, not scoped to a render frame:
/// nested iterations that reuse one alias name overwrite each other, and an
/// inner loop's binding stays live after that loop ends. This mirrors the
/// documented behaviour; callers that need isolation use separate models.
pub struct Model {
    params: Vec<Param>,
    aliases: Vec<Alias>,
}

/// The mathematical shape of a `Param`.
pub struct ParamV {
    pub name: Seq<char>,
    pub value: ValueV,
}

/// The mathematical shape of an `Alias`.
pub struct AliasV {
    pub name: Seq<char>,
    pub target: Seq<char>,
    pub index: Option<int>,
}

/// The mathematical shape of a `Model`.
pub struct ModelV {
    pub params: Seq<ParamV>,
    pub aliases: Seq<AliasV>,
}

impl View for Param {
    type V = ParamV;

    open spec fn view(&self) -> ParamV {
        ParamV { name: self.name@, value: self.value@ }
    }
}

impl View for Alias {
    type V = AliasV;

    open spec fn view(&self) -> AliasV {
        AliasV {
            name: self.name@,
            target: self.target@,
            index: match self.identifier {
                Identifier::Index(i) => Option::Some(i as int),
                Identifier::Whole => Option::None,
            },
        }
    }
}

impl View for Model {
    type V = ModelV;

    closed spec fn view(&self) -> ModelV {
        ModelV {
            params: self.params@.map_values(|p: Param| p@),
            aliases: self.aliases@.map_values(|a: Alias| a@),
        }
    }
}

/// The value of the first param of this name, if any.
pub open spec fn param_lookup(ps: Seq<ParamV>, name: Seq<char>) -> Option<ValueV>
    decreases ps.len(),
{
    if ps.len() == 0 {
        Option::None
    } else if ps[0].name == name {
        Option::Some(ps[0].value)
    } else {
        param_lookup(ps.drop_first(), name)
    }
}

/// The first alias of this name, if any.
pub open spec fn alias_lookup(aliases: Seq<AliasV>, name: Seq<char>) -> Option<AliasV>
    decreases aliases.len(),
{
    if aliases.len() == 0 {
        Option::None
    } else if aliases[0].name == name {
        Option::Some(aliases[0])
    } else {
        alias_lookup(aliases.drop_first(), name)
    }
}

/// What an alias of this name denotes: its whole target param, or one
/// element of a list-typed target; anything else is not found.
pub open spec fn alias_value(m: ModelV, name: Seq<char>) -> Option<ValueV> {
    match alias_lookup(m.aliases, name) {
        Option::None => Option::None,
        Option::Some(al) => match al.index {
            Option::None => param_lookup(m.params, al.target),
            Option::Some(i) => match param_lookup(m.params, al.target) {
                Option::Some(ValueV::List(l)) => if 0 <= i < l.len() {
                    Option::Some(l[i])
                } else {
                    Option::None
                },
                _ => Option::None,
            },
        },
    }
}

/// The value of the first member of this key, if any.
pub open spec fn member_lookup(ms: Seq<MemberV>, key: Seq<char>) -> Option<ValueV>
    decreases ms.len(),
{
    if ms.len() == 0 {
        Option::None
    } else if ms[0].key == key {
        Option::Some(ms[0].value)
    } else {
        member_lookup(ms.drop_first(), key)
    }
}

/// Follows the remaining path segments: each must select a member of a
/// composite value.
pub open spec fn walk_path(v: ValueV, segs: Seq<Seq<char>>) -> Option<ValueV>
    decreases segs.len(),
{
    if segs.len() == 0 {
        Option::Some(v)
    } else {
        match v {
            ValueV::Complex(ms) => match member_lookup(ms, segs[0]) {
                Option::None => Option::None,
                Option::Some(v2) => walk_path(v2, segs.drop_first()),
            },
            _ => Option::None,
        }
    }
}

/// Dotted-path resolution: the head segment names a param, or failing that
/// an alias; the remaining segments walk composite members.
pub open spec fn resolve(m: ModelV, path: Seq<char>) -> Option<ValueV> {
    let segs = split_on(path, '.');
    let tail = segs.drop_first();
    match param_lookup(m.params, segs[0]) {
        Option::Some(v) => walk_path(v, tail),
        Option::None => match alias_value(m, segs[0]) {
            Option::Some(v) => walk_path(v, tail),
            Option::None => Option::None,
        },
    }
}

/// Path segments never index into a list: with any segments left, anything
/// but a composite value resolves to nothing. Element access goes through an
/// alias alone.
pub proof fn lemma_path_segments_never_index(l: Seq<ValueV>, segs: Seq<Seq<char>>)
    requires
        segs.len() > 0,
    ensures
        walk_path(ValueV::List(l), segs) is None,
{
}

/// The alias table after a binding is set: the first alias of the same name
/// is overwritten in place, otherwise the binding is appended.
pub open spec fn set_alias_spec(aliases: Seq<AliasV>, al: AliasV) -> Seq<AliasV>
    decreases aliases.len(),
{
    if aliases.len() == 0 {
        seq![al]
    } else if aliases[0].name == al.name {
        seq![al] + aliases.drop_first()
    } else {
        seq![aliases[0]] + set_alias_spec(aliases.drop_first(), al)
    }
}

/// The params seen by the model when the same sequence is staged back to
/// front: the binding staged last wins a name.
pub open spec fn last_param(ps: Seq<ParamV>, name: Seq<char>) -> Option<ValueV>
    decreases ps.len(),
{
    if ps.len() == 0 {
        Option::None
    } else if ps.last().name == name {
        Option::Some(ps.last().value)
    } else {
        last_param(ps.drop_last(), name)
    }
}

proof fn lemma_param_lookup_reverse(ps: Seq<ParamV>, name: Seq<char>)
    ensures
        param_lookup(ps.reverse(), name) == last_param(ps, name),
    decreases ps.len(),
{
    if ps.len() > 0 {
        lemma_param_lookup_reverse(ps.drop_last(), name);
        assert(ps.reverse()[0] == ps.last());
        assert(ps.reverse().drop_first() =~= ps.drop_last().reverse());
    }
}

impl Model {
    /// Builds a model holding the given params and no aliases. A name given
    /// twice keeps the value given last, as the lookup laws state.
    pub fn new_with_params(params: Vec<Param>) -> (r: Self)
        ensures
            r@.aliases == Seq::<AliasV>::empty(),
            r@.params == params@.map_values(|p: Param| p@).reverse(),
            forall|n: Seq<char>|
                param_lookup(r@.params, n) == last_param(
                    params@.map_values(|p: Param| p@),
                    n,
                ),
    {
        let ghost input = params@.map_values(|p: Param| p@);
        let mut params = params;
        let mut stored: Vec<Param> = Vec::new();
        proof {
            assert(params@.map_values(|p: Param| p@) =~= input.take(input.len() as int));
        }
        while params.len() > 0
            invariant
                params@.map_values(|p: Param| p@) == input.take(params@.len() as int),
                params@.len() <= input.len(),
                stored@.map_values(|p: Param| p@) == input.skip(params@.len() as int).reverse(),
            decreases params.len(),
        {
            let ghost k = params@.len() - 1;
            let p = params.pop().unwrap();
            stored.push(p);
            proof {
                assert(p@ == input.take(k + 1)[k]);
                assert(input.take(k + 1)[k] == input[k]);
                assert(params@.map_values(|q: Param| q@) =~= input.take(k + 1).drop_last());
                assert(input.take(k + 1).drop_last() =~= input.take(k));
                assert(stored@.map_values(|q: Param| q@) =~= input.skip(k + 1).reverse().push(
                    input[k],
                ));
                assert(input.skip(k + 1).reverse().push(input[k]) =~= input.skip(k).reverse());
            }
        }
        let r = Model { params: stored, aliases: Vec::new() };
        proof {
            assert(input.skip(0) =~= input);
            assert(r@.aliases =~= Seq::<AliasV>::empty());
            assert(forall|n: Seq<char>|
                param_lookup(r@.params, n) == last_param(input, n)) by {
                assert forall|n: Seq<char>|
                    param_lookup(r@.params, n) == last_param(input, n) by {
                    lemma_param_lookup_reverse(input, n);
                }
            }
        }
        r
    }
}

} // verus!

verus! {

proof fn lemma_param_lookup_at(ps: Seq<ParamV>, name: Seq<char>, j: int)
    requires
        0 <= j < ps.len(),
        ps[j].name == name,
        forall|k: int| 0 <= k < j ==> (#[trigger] ps[k]).name != name,
    ensures
        param_lookup(ps, name) == Option::Some(ps[j].value),
    decreases ps.len(),
{
    if j > 0 {
        lemma_param_lookup_at(ps.drop_first(), name, j - 1);
    }
}

proof fn lemma_param_lookup_none(ps: Seq<ParamV>, name: Seq<char>)
    requires
        forall|k: int| 0 <= k < ps.len() ==> (#[trigger] ps[k]).name != name,
    ensures
        param_lookup(ps, name) is None,
    decreases ps.len(),
{
    if ps.len() > 0 {
        lemma_param_lookup_none(ps.drop_first(), name);
    }
}

proof fn lemma_alias_lookup_at(aliases: Seq<AliasV>, name: Seq<char>, j: int)
    requires
        0 <= j < aliases.len(),
        aliases[j].name == name,
        forall|k: int| 0 <= k < j ==> (#[trigger] aliases[k]).name != name,
    ensures
        alias_lookup(aliases, name) == Option::Some(aliases[j]),
    decreases aliases.len(),
{
    if j > 0 {
        lemma_alias_lookup_at(aliases.drop_first(), name, j - 1);
    }
}

proof fn lemma_alias_lookup_none(aliases: Seq<AliasV>, name: Seq<char>)
    requires
        forall|k: int| 0 <= k < aliases.len() ==> (#[trigger] aliases[k]).name != name,
    ensures
        alias_lookup(aliases, name) is None,
    decreases aliases.len(),
{
    if aliases.len() > 0 {
        lemma_alias_lookup_none(aliases.drop_first(), name);
    }
}

proof fn lemma_member_lookup_at(ms: Seq<MemberV>, key: Seq<char>, j: int)
    requires
        0 <= j < ms.len(),
        ms[j].key == key,
        forall|k: int| 0 <= k < j ==> (#[trigger] ms[k]).key != key,
    ensures
        member_lookup(ms, key) == Option::Some(ms[j].value),
    decreases ms.len(),
{
    if j > 0 {
        lemma_member_lookup_at(ms.drop_first(), key, j - 1);
    }
}

proof fn lemma_member_lookup_none(ms: Seq<MemberV>, key: Seq<char>)
    requires
        forall|k: int| 0 <= k < ms.len() ==> (#[trigger] ms[k]).key != key,
    ensures
        member_lookup(ms, key) is None,
    decreases ms.len(),
{
    if ms.len() > 0 {
        lemma_member_lookup_none(ms.drop_first(), key);
    }
}

proof fn lemma_set_alias_update(aliases: Seq<AliasV>, al: AliasV, j: int)
    requires
        0 <= j < aliases.len(),
        aliases[j].name == al.name,
        forall|k: int| 0 <= k < j ==> (#[trigger] aliases[k]).name != al.name,
    ensures
        set_alias_spec(aliases, al) == aliases.update(j, al),
    decreases aliases.len(),
{
    if j == 0 {
        assert(seq![al] + aliases.drop_first() =~= aliases.update(0, al));
    } else {
        lemma_set_alias_update(aliases.drop_first(), al, j - 1);
        assert(seq![aliases[0]] + aliases.drop_first().update(j - 1, al) =~= aliases.update(j, al));
    }
}

proof fn lemma_set_alias_push(aliases: Seq<AliasV>, al: AliasV)
    requires
        forall|k: int| 0 <= k < aliases.len() ==> (#[trigger] aliases[k]).name != al.name,
    ensures
        set_alias_spec(aliases, al) == aliases.push(al),
    decreases aliases.len(),
{
    if aliases.len() == 0 {
        assert(seq![al] =~= aliases.push(al));
    } else {
        lemma_set_alias_push(aliases.drop_first(), al);
        assert(seq![aliases[0]] + aliases.drop_first().push(al) =~= aliases.push(al));
    }
}

/// The value of the first param of this name.
fn param_find<'a>(params: &'a Vec<Param>, name: &str) -> (r: Option<&'a Value>)
    ensures
        match r {
            Some(v) => param_lookup(params@.map_values(|p: Param| p@), name@) == Option::Some(v@),
            None => param_lookup(params@.map_values(|p: Param| p@), name@) is None,
        },
{
    let ghost ps = params@.map_values(|p: Param| p@);
    let wanted = String::from_str(name);
    let mut j: usize = 0;
    while j < params.len()
        invariant
            j <= params.len(),
            wanted@ == name@,
            ps == params@.map_values(|p: Param| p@),
            forall|k: int| 0 <= k < j ==> (#[trigger] ps[k]).name != name@,
        decreases params.len() - j,
    {
        if params[j].name == wanted {
            proof {
                lemma_param_lookup_at(ps, name@, j as int);
            }
            return Some(&params[j].value);
        }
        j = j + 1;
    }
    proof {
        lemma_param_lookup_none(ps, name@);
    }
    None
}

/// The value of the first member of this key.
fn member_find<'a>(members: &'a Vec<Member>, key: &String) -> (r: Option<&'a Value>)
    ensures
        match r {
            Some(v) => member_lookup(view_members(members@), key@) == Option::Some(v@),
            None => member_lookup(view_members(members@), key@) is None,
        },
{
    let ghost ms = view_members(members@);
    proof {
        crate::value::lemma_view_members_len(members@);
    }
    let mut j: usize = 0;
    while j < members.len()
        invariant
            j <= members.len(),
            ms == view_members(members@),
            ms.len() == members@.len(),
            forall|k: int| 0 <= k < j ==> (#[trigger] ms[k]).key != key@,
        decreases members.len() - j,
    {
        proof {
            crate::value::lemma_view_members_index(members@, j as int);
        }
        if members[j].key == *key {
            proof {
                lemma_member_lookup_at(ms, key@, j as int);
            }
            return Some(&members[j].value);
        }
        j = j + 1;
    }
    proof {
        lemma_member_lookup_none(ms, key@);
    }
    None
}

impl Model {
    /// What an alias of this name denotes, if anything.
    fn get_alias(&self, alias_name: &str) -> (r: Option<&Value>)
        ensures
            match r {
                Some(v) => alias_value(self@, alias_name@) == Option::Some(v@),
                None => alias_value(self@, alias_name@) is None,
            },
    {
        let ghost avs = self@.aliases;
        let wanted = String::from_str(alias_name);
        let mut j: usize = 0;
        let mut found: Option<usize> = None;
        while j < self.aliases.len() && found.is_none()
            invariant
                j <= self.aliases.len(),
                wanted@ == alias_name@,
                avs == self@.aliases,
                avs.len() == self.aliases@.len(),
                match found {
                    Some(f) => f == j && j < avs.len() && avs[j as int].name == alias_name@
                        && forall|k: int| 0 <= k < j ==> (#[trigger] avs[k]).name != alias_name@,
                    None => forall|k: int| 0 <= k < j ==> (#[trigger] avs[k]).name != alias_name@,
                },
            decreases
                    self.aliases.len() - j + (if found is None {
                        1int
                    } else {
                        0int
                    }),
        {
            if self.aliases[j].name == wanted {
                found = Some(j);
            } else {
                j = j + 1;
            }
        }
        let j = match found {
            Some(f) => f,
            None => {
                proof {
                    lemma_alias_lookup_none(avs, alias_name@);
                }
                return None;
            },
        };
        proof {
            lemma_alias_lookup_at(avs, alias_name@, j as int);
        }
        let al = &self.aliases[j];
        match al.identifier {
            Identifier::Whole => param_find(&self.params, al.target.as_str()),
            Identifier::Index(i) => {
                match param_find(&self.params, al.target.as_str()) {
                    Some(v) => match v {
                        Value::List(l) => {
                            proof {
                                crate::value::lemma_view_values_len(l@);
                            }
                            if i < l.len() {
                                proof {
                                    crate::value::lemma_view_values_index(l@, i as int);
                                }
                                Some(&l[i])
                            } else {
                                None
                            }
                        },
                        _ => None,
                    },
                    None => None,
                }
            },
        }
    }

    /// Resolves a dotted path: the head segment names a param or an alias;
    /// each further segment selects a member of a composite value.
    pub fn get_param(&self, name: &str) -> (r: Option<&Value>)
        ensures
            match r {
                Some(v) => resolve(self@, name@) == Option::Some(v@),
                None => resolve(self@, name@) is None,
            },
    {
        let segs = split_char(name, '.');
        let ghost segs_v = split_on(name@, '.');
        proof {
            assert(segs.deep_view().len() == segs_v.len());
            assert(segs_v.len() >= 1);
            assert(segs.deep_view()[0] == segs_v[0]);
            assert(segs_v.skip(1) =~= segs_v.drop_first());
        }
        let head = &segs[0];
        let mut cur: &Value = match param_find(&self.params, head.as_str()) {
            Some(v) => v,
            None => {
                match self.get_alias(head.as_str()) {
                    Some(v) => v,
                    None => {
                        return None;
                    },
                }
            },
        };
        let ghost goal = resolve(self@, name@);
        proof {
            assert(goal == walk_path(cur@, segs_v.skip(1)));
        }
        let mut k: usize = 1;
        while k < segs.len()
            invariant
                1 <= k <= segs.len(),
                segs_v == split_on(name@, '.'),
                segs.deep_view() == segs_v,
                segs_v.len() == segs@.len(),
                goal == resolve(self@, name@),
                goal == walk_path(cur@, segs_v.skip(k as int)),
            decreases segs.len() - k,
        {
            proof {
                assert(segs_v.skip(k as int)[0] == segs_v[k as int]);
                assert(segs_v.skip(k as int).drop_first() =~= segs_v.skip(k + 1));
                assert(segs.deep_view()[k as int] == segs@[k as int]@);
            }
            match cur {
                Value::Complex(ms) => {
                    match member_find(ms, &segs[k]) {
                        Some(v2) => {
                            cur = v2;
                        },
                        None => {
                            return None;
                        },
                    }
                },
                _ => {
                    return None;
                },
            }
            k = k + 1;
        }
        proof {
            assert(segs_v.skip(segs_v.len() as int) =~= Seq::<Seq<char>>::empty());
        }
        Some(cur)
    }

    /// Sets a binding: the first alias of the same name is overwritten in
    /// place; otherwise the binding is appended. Params are untouched.
    pub fn set_alias(&mut self, alias: Alias)
        ensures
            final(self)@.params == old(self)@.params,
            final(self)@.aliases == set_alias_spec(old(self)@.aliases, alias@),
    {
        let ghost avs = self@.aliases;
        let ghost alv = alias@;
        let mut j: usize = 0;
        while j < self.aliases.len()
            invariant
                j <= self.aliases.len(),
                *self == *old(self),
                avs == self@.aliases,
                avs.len() == self.aliases@.len(),
                alv == alias@,
                forall|k: int| 0 <= k < j ==> (#[trigger] avs[k]).name != alv.name,
            decreases self.aliases.len() - j,
        {
            if self.aliases[j].name == alias.name {
                proof {
                    lemma_set_alias_update(avs, alv, j as int);
                }
                self.aliases[j] = alias;
                proof {
                    assert(self@.aliases =~= avs.update(j as int, alv));
                    assert(self@.params =~= old(self)@.params);
                }
                return ;
            }
            j = j + 1;
        }
        proof {
            lemma_set_alias_push(avs, alv);
        }
        self.aliases.push(alias);
        proof {
            assert(self@.aliases =~= avs.push(alv));
            assert(self@.params =~= old(self)@.params);
        }
    }
}

} // verus!
