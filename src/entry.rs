//! The canonical entry as a JSON document, and back.
use vstd::prelude::*;
use crate::dict::{opt_view, prs_views, Prs, PrsView, Word, WordView};
use crate::json::{field_of, get_member, member, owned, read_str, read_str_list, str_list, str_of, JsonValue};
use crate::text::views;

verus! {

/// `v` writes the optional text `o`: a string, or null where there is none.
pub open spec fn writes_opt(v: JsonValue, o: Option<Seq<char>>) -> bool {
    match o {
        Some(s) => v is Str && v->Str_0@ == s,
        None => v is Null,
    }
}

/// `v` is an array of the strings `items`, in order.
pub open spec fn writes_list(v: JsonValue, items: Seq<Seq<char>>) -> bool {
    &&& v is Array
    &&& v->Array_0@.len() == items.len()
    &&& forall|i: int|
        0 <= i < items.len() ==> #[trigger] v->Array_0@[i] is Str && v->Array_0@[i]->Str_0@
            == items[i]
}

/// `v` is the object `{"ipa": .., "audio": ..}` of a pronunciation.
pub open spec fn writes_prs(v: JsonValue, p: PrsView) -> bool {
    &&& v is Object
    &&& v->Object_0@.len() == 2
    &&& v->Object_0@[0].0@ == "ipa"@
    &&& writes_opt(v->Object_0@[0].1, p.ipa)
    &&& v->Object_0@[1].0@ == "audio"@
    &&& writes_opt(v->Object_0@[1].1, p.audio)
}

/// `v` is the object `{"hw": .., "def": [..], "trans": [..], "prs": [..]}`
/// of the entry `w`, members in that order.
pub open spec fn writes_entry(v: JsonValue, w: WordView) -> bool {
    &&& v is Object
    &&& v->Object_0@.len() == 4
    &&& v->Object_0@[0].0@ == "hw"@
    &&& v->Object_0@[0].1 is Str
    &&& v->Object_0@[0].1->Str_0@ == w.hw
    &&& v->Object_0@[1].0@ == "def"@
    &&& writes_list(v->Object_0@[1].1, w.def)
    &&& v->Object_0@[2].0@ == "trans"@
    &&& writes_list(v->Object_0@[2].1, w.trans)
    &&& v->Object_0@[3].0@ == "prs"@
    &&& v->Object_0@[3].1 is Array
    &&& v->Object_0@[3].1->Array_0@.len() == w.prs.len()
    &&& forall|i: int|
        0 <= i < w.prs.len() ==> writes_prs(#[trigger] v->Object_0@[3].1->Array_0@[i], w.prs[i])
}

/// An optional text read from a member: missing or null is none; `None`
/// where the member is something else.
pub open spec fn opt_str_of(v: Option<JsonValue>) -> Option<Option<Seq<char>>> {
    match v {
        None => Some(None),
        Some(JsonValue::Null) => Some(None),
        Some(JsonValue::Str(s)) => Some(Some(s@)),
        _ => None,
    }
}

/// The pronunciation that an object gives.
pub open spec fn prs_of(v: JsonValue) -> Option<PrsView> {
    if v is Object {
        match (opt_str_of(member(v, "ipa"@)), opt_str_of(member(v, "audio"@))) {
            (Some(ipa), Some(audio)) => Some(PrsView { ipa, audio }),
            _ => None,
        }
    } else {
        None
    }
}

/// The pronunciations that an array of objects gives.
pub open spec fn prs_list(v: Option<JsonValue>) -> Option<Seq<PrsView>> {
    match v {
        Some(JsonValue::Array(a)) => if forall|i: int| 0 <= i < a@.len() ==> #[trigger] prs_of(a@[i]) is Some {
            Some(Seq::new(a@.len(), |i: int| prs_of(a@[i])->0))
        } else {
            None
        },
        _ => None,
    }
}

/// The entry that a JSON document gives, if it has the entry's shape; other
/// members are passed over.
pub open spec fn entry_of(v: JsonValue) -> Option<WordView> {
    match (
        str_of(member(v, "hw"@)),
        str_list(member(v, "def"@)),
        str_list(member(v, "trans"@)),
        prs_list(member(v, "prs"@)),
    ) {
        (Some(hw), Some(def), Some(trans), Some(prs)) => Some(WordView { hw, def, trans, prs }),
        _ => None,
    }
}

fn text_value(s: &String) -> (r: JsonValue)
    ensures
        r is Str && r->Str_0@ == s@,
{
    JsonValue::Str(s.clone())
}

fn opt_value(o: &Option<String>) -> (r: JsonValue)
    ensures
        writes_opt(r, opt_view(*o)),
{
    match o {
        Some(s) => text_value(s),
        None => JsonValue::Null,
    }
}

fn list_value(items: &Vec<String>) -> (r: JsonValue)
    ensures
        writes_list(r, views(items@)),
{
    let mut out: Vec<JsonValue> = Vec::new();
    let mut i: usize = 0;
    while i < items.len()
        invariant
            i <= items@.len(),
            out@.len() == i,
            forall|j: int|
                0 <= j < i ==> #[trigger] out@[j] is Str && out@[j]->Str_0@ == items@[j]@,
        decreases items@.len() - i,
    {
        out.push(text_value(&items[i]));
        i = i + 1;
    }
    JsonValue::Array(out)
}

fn prs_value(p: &Prs) -> (r: JsonValue)
    ensures
        writes_prs(r, p@),
{
    let mut members: Vec<(String, JsonValue)> = Vec::new();
    members.push((String::from_str("ipa"), opt_value(&p.ipa)));
    members.push((String::from_str("audio"), opt_value(&p.audio)));
    JsonValue::Object(members)
}

/// The entry as a JSON document, members in the order `hw`, `def`, `trans`,
/// `prs`.
pub fn entry_to_json(w: &Word) -> (r: JsonValue)
    ensures
        writes_entry(r, w@),
{
    let mut prs: Vec<JsonValue> = Vec::new();
    let mut i: usize = 0;
    while i < w.prs.len()
        invariant
            i <= w.prs@.len(),
            prs@.len() == i,
            forall|j: int| 0 <= j < i ==> writes_prs(#[trigger] prs@[j], w.prs@[j]@),
        decreases w.prs@.len() - i,
    {
        prs.push(prs_value(&w.prs[i]));
        i = i + 1;
    }
    let mut members: Vec<(String, JsonValue)> = Vec::new();
    members.push((String::from_str("hw"), text_value(&w.hw)));
    members.push((String::from_str("def"), list_value(&w.def)));
    members.push((String::from_str("trans"), list_value(&w.trans)));
    members.push((String::from_str("prs"), JsonValue::Array(prs)));
    let r = JsonValue::Object(members);
    assert(forall|j: int| 0 <= j < w.prs@.len() ==> #[trigger] prs_views(w.prs@)[j] == w.prs@[j]@);
    r
}

fn read_opt_str(v: Option<&JsonValue>) -> (r: Option<Option<String>>)
    ensures
        match r {
            Some(o) => opt_str_of(owned(v)) == Some(opt_view(o)),
            None => opt_str_of(owned(v)) is None,
        },
{
    match v {
        None => Some(None),
        Some(JsonValue::Null) => Some(None),
        Some(JsonValue::Str(s)) => Some(Some(s.clone())),
        _ => None,
    }
}

fn read_prs(v: &JsonValue) -> (r: Option<Prs>)
    ensures
        match r {
            Some(p) => prs_of(*v) == Some(p@),
            None => prs_of(*v) is None,
        },
{
    match v {
        JsonValue::Object(_) => {
            let ipa = read_opt_str(get_member(v, "ipa"));
            let audio = read_opt_str(get_member(v, "audio"));
            match (ipa, audio) {
                (Some(ipa), Some(audio)) => Some(Prs { ipa, audio }),
                _ => None,
            }
        },
        _ => None,
    }
}

fn read_prs_list(v: Option<&JsonValue>) -> (r: Option<Vec<Prs>>)
    ensures
        match r {
            Some(l) => prs_list(owned(v)) == Some(prs_views(l@)),
            None => prs_list(owned(v)) is None,
        },
{
    match v {
        Some(JsonValue::Array(a)) => {
            let mut out: Vec<Prs> = Vec::new();
            let mut i: usize = 0;
            while i < a.len()
                invariant
                    owned(v) == Some(JsonValue::Array(*a)),
                    i <= a@.len(),
                    out@.len() == i,
                    forall|j: int| 0 <= j < i ==> #[trigger] prs_of(a@[j]) == Some(out@[j]@),
                decreases a@.len() - i,
            {
                match read_prs(&a[i]) {
                    Some(p) => {
                        out.push(p);
                    },
                    None => {
                        return None;
                    },
                }
                i = i + 1;
            }
            assert(prs_views(out@) =~= Seq::new(a@.len(), |j: int| prs_of(a@[j])->0));
            Some(out)
        },
        _ => None,
    }
}

/// Reads an entry back from a JSON document; `None` where the document does
/// not have the entry's shape.
pub fn entry_from_json(v: &JsonValue) -> (r: Option<Word>)
    ensures
        match r {
            Some(w) => entry_of(*v) == Some(w@),
            None => entry_of(*v) is None,
        },
{
    let hw = read_str(get_member(v, "hw"));
    let def = read_str_list(get_member(v, "def"));
    let trans = read_str_list(get_member(v, "trans"));
    let prs = read_prs_list(get_member(v, "prs"));
    match (hw, def, trans, prs) {
        (Some(hw), Some(def), Some(trans), Some(prs)) => Some(Word { hw, def, trans, prs }),
        _ => None,
    }
}

proof fn lemma_prs_round_trip(v: JsonValue, p: PrsView)
    requires
        writes_prs(v, p),
    ensures
        prs_of(v) == Some(p),
{
    reveal_strlit("ipa");
    reveal_strlit("audio");
    let m = v->Object_0@;
    assert("ipa"@.len() == 3 && "audio"@.len() == 5);
    assert(m[0].0@ != "audio"@);
    assert(m.drop_first()[0] == m[1]);
    assert(field_of(m, "ipa"@) == Some(m[0].1));
    assert(field_of(m.drop_first(), "audio"@) == Some(m[1].1));
    assert(field_of(m, "audio"@) == Some(m[1].1));
}

/// Reading back the document that an entry was written to gives the entry:
/// the same headword, and the definitions, translations and pronunciations
/// in the same order.
pub proof fn lemma_entry_round_trip(v: JsonValue, w: WordView)
    requires
        writes_entry(v, w),
    ensures
        entry_of(v) == Some(w),
{
    reveal_strlit("hw");
    reveal_strlit("def");
    reveal_strlit("trans");
    reveal_strlit("prs");
    let m = v->Object_0@;
    assert("hw"@.len() == 2 && "def"@.len() == 3 && "trans"@.len() == 5 && "prs"@.len() == 3);
    assert("def"@[0] == 'd' && "prs"@[0] == 'p');
    let m1 = m.drop_first();
    let m2 = m1.drop_first();
    let m3 = m2.drop_first();
    assert(m1[0] == m[1] && m2[0] == m[2] && m3[0] == m[3]);
    assert(m[0].0@ != "def"@ && m[0].0@ != "trans"@ && m[0].0@ != "prs"@);
    assert(m[1].0@ != "trans"@ && m[1].0@ != "prs"@);
    assert(m[2].0@ != "prs"@);
    assert(field_of(m, "hw"@) == Some(m[0].1));
    assert(field_of(m2, "trans"@) == Some(m[2].1));
    assert(field_of(m1, "def"@) == Some(m[1].1));
    assert(field_of(m, "def"@) == Some(m[1].1));
    assert(field_of(m3, "prs"@) == Some(m[3].1));
    assert(field_of(m2, "prs"@) == Some(m[3].1));
    assert(field_of(m1, "prs"@) == Some(m[3].1));
    assert(field_of(m1, "trans"@) == Some(m[2].1));
    assert(field_of(m, "trans"@) == Some(m[2].1));
    assert(field_of(m, "prs"@) == Some(m[3].1));
    let d = m[1].1->Array_0@;
    let t = m[2].1->Array_0@;
    let a = m[3].1->Array_0@;
    assert(Seq::new(d.len(), |i: int| d[i]->Str_0@) =~= w.def);
    assert(Seq::new(t.len(), |i: int| t[i]->Str_0@) =~= w.trans);
    assert forall|i: int| 0 <= i < a.len() implies #[trigger] prs_of(a[i]) == Some(w.prs[i]) by {
        lemma_prs_round_trip(a[i], w.prs[i]);
    }
    assert(Seq::new(a.len(), |i: int| prs_of(a[i])->0) =~= w.prs);
}

} // verus!
