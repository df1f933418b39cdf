//! The dynamically typed values held by the data model: opaque scalars,
//! ordered lists, and ordered key/value composites.

use vstd::prelude::*;

verus! {

/// A value staged into the data model or produced by template evaluation.
pub enum Value {
    /// An opaque scalar; its text form is the scalar itself.
    Simple(String),
    /// An ordered sequence of values.
    List(Vec<Value>),
    /// An ordered sequence of key/value members; keys need not be unique,
    /// lookup returns the first match.
    Complex(Vec<Member>),
}

/// One key/value pair of a `Value::Complex`.
pub struct Member {
    pub key: String,
    pub value: Value,
}

/// The mathematical shape of a `Value`: the same tree over sequences of
/// characters.
pub enum ValueV {
    Simple(Seq<char>),
    List(Seq<ValueV>),
    Complex(Seq<MemberV>),
}

/// The mathematical shape of a `Member`.
pub struct MemberV {
    pub key: Seq<char>,
    pub value: ValueV,
}

impl View for Value {
    type V = ValueV;

    open spec fn view(&self) -> ValueV
        decreases self,
    {
        match self {
            Value::Simple(s) => ValueV::Simple(s@),
            Value::List(l) => ValueV::List(view_values(l@)),
            Value::Complex(ms) => ValueV::Complex(view_members(ms@)),
        }
    }
}

impl View for Member {
    type V = MemberV;

    open spec fn view(&self) -> MemberV
        decreases self,
    {
        MemberV { key: self.key@, value: self.value@ }
    }
}

/// The views of a sequence of values, element by element.
pub open spec fn view_values(s: Seq<Value>) -> Seq<ValueV>
    decreases s,
{
    if s.len() == 0 {
        Seq::empty()
    } else {
        view_values(s.drop_last()).push(s.last()@)
    }
}

/// The views of a sequence of members, element by element.
pub open spec fn view_members(s: Seq<Member>) -> Seq<MemberV>
    decreases s,
{
    if s.len() == 0 {
        Seq::empty()
    } else {
        view_members(s.drop_last()).push(s.last()@)
    }
}

pub proof fn lemma_view_values_len(s: Seq<Value>)
    ensures
        view_values(s).len() == s.len(),
    decreases s,
{
    if s.len() > 0 {
        lemma_view_values_len(s.drop_last());
        assert(view_values(s) == view_values(s.drop_last()).push(s.last()@));
    }
}

pub proof fn lemma_view_values_index(s: Seq<Value>, i: int)
    requires
        0 <= i < s.len(),
    ensures
        view_values(s)[i] == s[i]@,
    decreases s,
{
    lemma_view_values_len(s);
    assert(view_values(s) == view_values(s.drop_last()).push(s.last()@));
    if i < s.len() - 1 {
        lemma_view_values_index(s.drop_last(), i);
    }
}

pub proof fn lemma_view_members_len(s: Seq<Member>)
    ensures
        view_members(s).len() == s.len(),
    decreases s,
{
    if s.len() > 0 {
        lemma_view_members_len(s.drop_last());
        assert(view_members(s) == view_members(s.drop_last()).push(s.last()@));
    }
}

pub proof fn lemma_view_members_index(s: Seq<Member>, i: int)
    requires
        0 <= i < s.len(),
    ensures
        view_members(s)[i] == s[i]@,
    decreases s,
{
    lemma_view_members_len(s);
    assert(view_members(s) == view_members(s.drop_last()).push(s.last()@));
    if i < s.len() - 1 {
        lemma_view_members_index(s.drop_last(), i);
    }
}

} // verus!

verus! {

/// The text form of a value: a scalar is itself; a list joins the texts of
/// its elements with `,` and wraps them in `[ ]`; a composite joins
/// `key : value` pairs with `,` and wraps them in `{ }`.
pub open spec fn value_text(v: ValueV) -> Seq<char>
    decreases v,
{
    match v {
        ValueV::Simple(s) => s,
        ValueV::List(l) => seq!['[', ' '] + list_text(l) + seq![' ', ']'],
        ValueV::Complex(ms) => seq!['{', ' '] + members_text(ms) + seq![' ', '}'],
    }
}

/// The element texts joined with `,`.
pub open spec fn list_text(vs: Seq<ValueV>) -> Seq<char>
    decreases vs,
{
    if vs.len() == 0 {
        Seq::empty()
    } else if vs.len() == 1 {
        value_text(vs[0])
    } else {
        list_text(vs.drop_last()) + seq![','] + value_text(vs.last())
    }
}

/// The text of one member: `key : value`.
pub open spec fn member_text(m: MemberV) -> Seq<char>
    decreases m,
{
    m.key + seq![' ', ':', ' '] + value_text(m.value)
}

/// The member texts joined with `,`.
pub open spec fn members_text(ms: Seq<MemberV>) -> Seq<char>
    decreases ms,
{
    if ms.len() == 0 {
        Seq::empty()
    } else if ms.len() == 1 {
        member_text(ms[0])
    } else {
        members_text(ms.drop_last()) + seq![','] + member_text(ms.last())
    }
}

impl Value {
    /// Renders the value as text, as `value_text` describes.
    #[verifier::loop_isolation(false)]
    pub fn to_text(&self) -> (r: String)
        ensures
            r@ == value_text(self@),
        decreases self,
    {
        match self {
            Value::Simple(s) => s.clone(),
            Value::List(l) => {
                let mut out = String::from_str("[ ");
                proof {
                    reveal_strlit("[ ");
                    assert(out@ == seq!['[', ' ']);
                    assert(view_values(l@).take(0) == Seq::<ValueV>::empty());
                }
                let mut i: usize = 0;
                while i < l.len()
                    invariant
                        i <= l.len(),
                        out@ == seq!['[', ' '] + list_text(view_values(l@).take(i as int)),
                    decreases l.len() - i,
                {
                    if i > 0 {
                        out.append(",");
                        proof {
                            reveal_strlit(",");
                        }
                    }
                    proof {
                        assert(*self == Value::List(*l));
                        assert(decreases_to!(Value::List(*l) => *l));
                        assert(decreases_to!(*l => l@));
                        assert(decreases_to!(l@ => l@[i as int]));
                    }
                    let t = l[i].to_text();
                    out.append(t.as_str());
                    proof {
                        lemma_view_values_len(l@);
                        lemma_view_values_index(l@, i as int);
                        let vs = view_values(l@);
                        assert(vs.take(i + 1).drop_last() =~= vs.take(i as int));
                        assert(vs.take(i + 1).last() == vs[i as int]);
                        if i == 0 {
                            assert(list_text(vs.take(1)) == value_text(vs.take(1)[0]));
                        } else {
                            assert(list_text(vs.take(i + 1)) == list_text(vs.take(i + 1).drop_last())
                                + seq![','] + value_text(vs.take(i + 1).last()));
                        }
                    }
                    i = i + 1;
                }
                out.append(" ]");
                proof {
                    reveal_strlit(" ]");
                    lemma_view_values_len(l@);
                    assert(view_values(l@).take(l@.len() as int) =~= view_values(l@));
                }
                out
            },
            Value::Complex(ms) => {
                let mut out = String::from_str("{ ");
                proof {
                    reveal_strlit("{ ");
                    assert(out@ == seq!['{', ' ']);
                    assert(view_members(ms@).take(0) == Seq::<MemberV>::empty());
                }
                let mut i: usize = 0;
                while i < ms.len()
                    invariant
                        i <= ms.len(),
                        out@ == seq!['{', ' '] + members_text(view_members(ms@).take(i as int)),
                    decreases ms.len() - i,
                {
                    if i > 0 {
                        out.append(",");
                        proof {
                            reveal_strlit(",");
                        }
                    }
                    out.append(ms[i].key.as_str());
                    out.append(" : ");
                    proof {
                        assert(*self == Value::Complex(*ms));
                        assert(decreases_to!(Value::Complex(*ms) => *ms));
                        assert(decreases_to!(*ms => ms@));
                        assert(decreases_to!(ms@ => ms@[i as int]));
                        assert(decreases_to!(ms@[i as int] => ms@[i as int].value));
                    }
                    let t = ms[i].value.to_text();
                    out.append(t.as_str());
                    proof {
                        reveal_strlit(" : ");
                        lemma_view_members_len(ms@);
                        lemma_view_members_index(ms@, i as int);
                        let vs = view_members(ms@);
                        assert(member_text(vs[i as int]) == vs[i as int].key + seq![' ', ':', ' ']
                            + value_text(vs[i as int].value));
                        assert(vs.take(i + 1).drop_last() =~= vs.take(i as int));
                        assert(vs.take(i + 1).last() == vs[i as int]);
                        if i == 0 {
                            assert(members_text(vs.take(1)) == member_text(vs.take(1)[0]));
                        } else {
                            assert(members_text(vs.take(i + 1)) == members_text(
                                vs.take(i + 1).drop_last()) + seq![','] + member_text(
                                vs.take(i + 1).last()));
                        }
                    }
                    i = i + 1;
                }
                out.append(" }");
                proof {
                    reveal_strlit(" }");
                    lemma_view_members_len(ms@);
                    assert(view_members(ms@).take(ms@.len() as int) =~= view_members(ms@));
                }
                out
            },
        }
    }
}

} // verus!
