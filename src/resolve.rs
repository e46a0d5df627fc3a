//! Tiered dictionary lookup: the local store first, then the remote service,
//! following the alternate headwords that it suggests.
use vstd::prelude::*;
use crate::dict::{local_entry, mw_prs_to_prs, prs_views, Pronounce, Prs, PrsView, StarWord, Word, WordView, word_from_local};
use crate::json::{get_member, member, owned, read_str, read_str_list, str_list, str_of, JsonValue};
use crate::text::views;

verus! {

/// Most alternate headwords followed in one lookup.
pub const MAX_REDIRECTS: usize = 5;

/// Why the remote tier gave no entry.
#[derive(Clone, Copy, Debug, PartialEq, Eq, Structural)]
pub enum LookupError {
    /// The response is neither an object nor an array that starts with an
    /// object or a string.
    WrongShape,
    /// The response object lacks a field of the entry or holds one of the
    /// wrong type.
    BadEntry,
    /// The service kept suggesting alternate headwords.
    TooManyRedirects,
}

/// What the caller does next in a lookup.
#[derive(Debug)]
pub enum Step {
    /// Query the local store for this word.
    QueryLocal(String),
    /// Ask the remote service for this word.
    Request(String),
    /// The lookup ends with this entry.
    Found(Word),
    /// The lookup ends without an entry.
    Failed(LookupError),
}

/// What a step holds, with texts and entries as their views.
pub enum StepView {
    QueryLocal(Seq<char>),
    Request(Seq<char>),
    Found(WordView),
    Failed(LookupError),
}

impl View for Step {
    type V = StepView;

    open spec fn view(&self) -> StepView {
        match self {
            Step::QueryLocal(w) => StepView::QueryLocal(w@),
            Step::Request(w) => StepView::Request(w@),
            Step::Found(e) => StepView::Found(e@),
            Step::Failed(e) => StepView::Failed(*e),
        }
    }
}

/// The recording named in a `sound` member; a missing member is an empty one.
pub open spec fn sound_audio(v: Option<JsonValue>) -> Option<Seq<char>> {
    match v {
        None => Some(Seq::empty()),
        Some(s) => str_of(member(s, "audio"@)),
    }
}

/// A pronunciation object of the remote service: `ipa` and an optional
/// `sound` with its `audio`.
pub open spec fn mw_pron(v: JsonValue) -> Option<PrsView> {
    match (str_of(member(v, "ipa"@)), sound_audio(member(v, "sound"@))) {
        (Some(ipa), Some(audio)) => Some(PrsView { ipa: Some(ipa), audio: Some(audio) }),
        _ => None,
    }
}

/// The pronunciations of a `prs` member; a missing member gives none.
pub open spec fn mw_prons(v: Option<JsonValue>) -> Option<Seq<PrsView>> {
    match v {
        None => Some(Seq::empty()),
        Some(JsonValue::Array(a)) => if forall|i: int| 0 <= i < a@.len() ==> #[trigger] mw_pron(a@[i]) is Some {
            Some(Seq::new(a@.len(), |i: int| mw_pron(a@[i])->0))
        } else {
            None
        },
        _ => None,
    }
}

/// The entry that a response object of the remote service gives: headword
/// and definitions from `meta.app-shortdef` (which must also hold `fl`),
/// pronunciations from `hwi.prs` (`hwi` must also hold `hw`), no
/// translations.
pub open spec fn mw_entry(v: JsonValue) -> Option<WordView> {
    match (member(v, "meta"@), member(v, "hwi"@)) {
        (Some(meta), Some(hwi)) => match member(meta, "app-shortdef"@) {
            Some(sd) => match (
                str_of(member(sd, "hw"@)),
                str_of(member(sd, "fl"@)),
                str_list(member(sd, "def"@)),
                str_of(member(hwi, "hw"@)),
                mw_prons(member(hwi, "prs"@)),
            ) {
                (Some(hw), Some(_), Some(def), Some(_), Some(prs)) => Some(
                    WordView { hw, def, trans: Seq::empty(), prs },
                ),
                _ => None,
            },
            None => None,
        },
        _ => None,
    }
}

fn read_mw_pron(v: &JsonValue) -> (r: Option<Pronounce>)
    ensures
        match r {
            Some(p) => mw_pron(*v) == Some(PrsView { ipa: Some(p.ipa@), audio: Some(p.audio@) }),
            None => mw_pron(*v) is None,
        },
{
    let ipa = read_str(get_member(v, "ipa"));
    let audio = match get_member(v, "sound") {
        None => Some(String::new()),
        Some(s) => read_str(get_member(s, "audio")),
    };
    match (ipa, audio) {
        (Some(ipa), Some(audio)) => Some(Pronounce { ipa, audio }),
        _ => None,
    }
}

fn read_mw_prons(v: Option<&JsonValue>) -> (r: Option<Vec<Prs>>)
    ensures
        match r {
            Some(l) => mw_prons(owned(v)) == Some(prs_views(l@)),
            None => mw_prons(owned(v)) is None,
        },
{
    match v {
        None => {
            let l: Vec<Prs> = Vec::new();
            assert(prs_views(l@) =~= Seq::<PrsView>::empty());
            Some(l)
        },
        Some(JsonValue::Array(a)) => {
            let mut out: Vec<Prs> = Vec::new();
            let mut i: usize = 0;
            while i < a.len()
                invariant
                    owned(v) == Some(JsonValue::Array(*a)),
                    i <= a@.len(),
                    out@.len() == i,
                    forall|j: int| 0 <= j < i ==> #[trigger] mw_pron(a@[j]) == Some(out@[j]@),
                decreases a@.len() - i,
            {
                match read_mw_pron(&a[i]) {
                    Some(p) => {
                        out.push(mw_prs_to_prs(&p));
                    },
                    None => {
                        return None;
                    },
                }
                i = i + 1;
            }
            assert(prs_views(out@) =~= Seq::new(a@.len(), |j: int| mw_pron(a@[j])->0));
            Some(out)
        },
        _ => None,
    }
}

/// Reads the entry out of a response object of the remote service.
pub fn decode_mw_entry(v: &JsonValue) -> (r: Option<Word>)
    ensures
        match r {
            Some(w) => mw_entry(*v) == Some(w@),
            None => mw_entry(*v) is None,
        },
{
    let meta = match get_member(v, "meta") {
        Some(m) => m,
        None => {
            return None;
        },
    };
    let hwi = match get_member(v, "hwi") {
        Some(h) => h,
        None => {
            return None;
        },
    };
    let sd = match get_member(meta, "app-shortdef") {
        Some(s) => s,
        None => {
            return None;
        },
    };
    let hw = read_str(get_member(sd, "hw"));
    let fl = read_str(get_member(sd, "fl"));
    let def = read_str_list(get_member(sd, "def"));
    let head = read_str(get_member(hwi, "hw"));
    let prs = read_mw_prons(get_member(hwi, "prs"));
    match (hw, fl, def, head, prs) {
        (Some(hw), Some(_), Some(def), Some(_), Some(prs)) => {
            let trans: Vec<String> = Vec::new();
            assert(views(trans@) =~= Seq::<Seq<char>>::empty());
            Some(Word { hw, def, trans, prs })
        },
        _ => None,
    }
}

/// Where a response object leads: its entry, or a failure.
pub open spec fn entry_step(x: JsonValue) -> StepView {
    match mw_entry(x) {
        Some(w) => StepView::Found(w),
        None => StepView::Failed(LookupError::BadEntry),
    }
}

/// Where a response of the remote service leads, after `redirects`
/// alternate headwords: an object is the answer; an array is read by its
/// first element, an object being the answer and a string an alternate
/// headword to ask for; anything else is the wrong shape.
pub open spec fn remote_step(v: JsonValue, redirects: int) -> StepView {
    match v {
        JsonValue::Object(_) => entry_step(v),
        JsonValue::Array(a) => if a@.len() == 0 {
            StepView::Failed(LookupError::WrongShape)
        } else {
            match a@[0] {
                JsonValue::Object(_) => entry_step(a@[0]),
                JsonValue::Str(s) => if redirects < MAX_REDIRECTS {
                    StepView::Request(s@)
                } else {
                    StepView::Failed(LookupError::TooManyRedirects)
                },
                _ => StepView::Failed(LookupError::WrongShape),
            }
        },
        _ => StepView::Failed(LookupError::WrongShape),
    }
}

/// The first step of a lookup: the local store where there is one, else
/// the remote service.
pub fn start_lookup(word: &str, has_store: bool) -> (r: Step)
    ensures
        r@ == (if has_store {
            StepView::QueryLocal(word@)
        } else {
            StepView::Request(word@)
        }),
{
    if has_store {
        Step::QueryLocal(word.to_owned())
    } else {
        Step::Request(word.to_owned())
    }
}

/// Where the local store's answer leads: its row gives the entry, and a
/// missing row (or a failed query) hands the word to the remote service.
pub open spec fn local_step(word: Seq<char>, row: Option<StarWord>) -> StepView {
    match row {
        Some(d) => StepView::Found(local_entry(d)),
        None => StepView::Request(word),
    }
}

/// The step after the local store answered.
pub fn after_local(word: &str, row: Option<StarWord>) -> (r: Step)
    ensures
        r@ == local_step(word@, row),
{
    match row {
        Some(d) => Step::Found(word_from_local(d)),
        None => Step::Request(word.to_owned()),
    }
}

fn entry_found(x: &JsonValue) -> (r: Step)
    ensures
        r@ == entry_step(*x),
{
    match decode_mw_entry(x) {
        Some(w) => Step::Found(w),
        None => Step::Failed(LookupError::BadEntry),
    }
}

/// The step after the remote service answered with `response`, when
/// `redirects` alternate headwords have been followed already.
pub fn after_remote(response: &JsonValue, redirects: usize) -> (r: Step)
    ensures
        r@ == remote_step(*response, redirects as int),
{
    match response {
        JsonValue::Object(_) => entry_found(response),
        JsonValue::Array(a) => {
            if a.len() == 0 {
                return Step::Failed(LookupError::WrongShape);
            }
            match &a[0] {
                JsonValue::Object(_) => entry_found(&a[0]),
                JsonValue::Str(s) => {
                    if redirects < MAX_REDIRECTS {
                        Step::Request(s.clone())
                    } else {
                        Step::Failed(LookupError::TooManyRedirects)
                    }
                },
                _ => Step::Failed(LookupError::WrongShape),
            }
        },
        _ => Step::Failed(LookupError::WrongShape),
    }
}

/// The remote service is asked after the local store exactly when the store
/// has no row for the word, and then once, for that word; a row ends the
/// lookup with its entry.
pub proof fn lemma_remote_only_after_local_miss(word: Seq<char>, row: Option<StarWord>)
    ensures
        local_step(word, row) is Request <==> row is None,
        row is None ==> local_step(word, row) == StepView::Request(word),
        row is Some ==> local_step(word, row) == StepView::Found(local_entry(row->0)),
{
}

/// A response object ends the lookup on that response: it gives the entry
/// or a failure, never another request.
pub proof fn lemma_object_response_is_final(v: JsonValue, redirects: int)
    requires
        v is Object,
    ensures
        remote_step(v, redirects) is Found || remote_step(v, redirects) is Failed,
{
}

/// A response whose first element is a string leads to a request for that
/// string, while fewer than `MAX_REDIRECTS` alternate headwords have been
/// followed.
pub proof fn lemma_alternate_word_is_requested(v: JsonValue, redirects: int)
    requires
        v is Array,
        v->Array_0@.len() > 0,
        v->Array_0@[0] is Str,
        0 <= redirects < MAX_REDIRECTS,
    ensures
        remote_step(v, redirects) == StepView::Request(v->Array_0@[0]->Str_0@),
{
}

} // verus!
