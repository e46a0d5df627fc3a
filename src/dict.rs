//! The canonical dictionary entry and the records it is made from.
use vstd::prelude::*;
use crate::text::{split_lines, text_lines, views};

verus! {

/// A pronunciation: its IPA transcription and a link to a recording, each
/// when known.
#[derive(Debug)]
pub struct Prs {
    pub ipa: Option<String>,
    pub audio: Option<String>,
}

/// A canonical dictionary entry: headword, definitions, translations and
/// pronunciations, each list in order.
#[derive(Debug)]
pub struct Word {
    pub hw: String,
    pub def: Vec<String>,
    pub trans: Vec<String>,
    pub prs: Vec<Prs>,
}

/// A row of the local dictionary store.
#[derive(Debug)]
pub struct StarWord {
    pub word: String,
    pub phonetic: Option<String>,
    pub definition: Option<String>,
    pub translation: Option<String>,
}

/// A pronunciation as the remote service gives it; a missing recording is
/// an empty `audio`.
#[derive(Debug)]
pub struct Pronounce {
    pub ipa: String,
    pub audio: String,
}

/// What a pronunciation holds, as character sequences.
pub struct PrsView {
    pub ipa: Option<Seq<char>>,
    pub audio: Option<Seq<char>>,
}

/// What an entry holds, as character sequences.
pub struct WordView {
    pub hw: Seq<char>,
    pub def: Seq<Seq<char>>,
    pub trans: Seq<Seq<char>>,
    pub prs: Seq<PrsView>,
}

/// The text of an optional string.
pub open spec fn opt_view(o: Option<String>) -> Option<Seq<char>> {
    match o {
        Some(s) => Some(s@),
        None => None,
    }
}

impl View for Prs {
    type V = PrsView;

    open spec fn view(&self) -> PrsView {
        PrsView { ipa: opt_view(self.ipa), audio: opt_view(self.audio) }
    }
}

/// The views of a list of pronunciations.
pub open spec fn prs_views(v: Seq<Prs>) -> Seq<PrsView> {
    v.map_values(|p: Prs| p@)
}

impl View for Word {
    type V = WordView;

    open spec fn view(&self) -> WordView {
        WordView {
            hw: self.hw@,
            def: views(self.def@),
            trans: views(self.trans@),
            prs: prs_views(self.prs@),
        }
    }
}

/// The entries of a newline-separated block, none where there is no block.
pub open spec fn block_lines(block: Option<String>) -> Seq<Seq<char>> {
    match block {
        Some(s) => text_lines(s@),
        None => Seq::empty(),
    }
}

/// Splits a newline-separated block into its entries.
pub fn chunck_def(def: Option<String>) -> (r: Vec<String>)
    ensures
        views(r@) == block_lines(def),
{
    match def {
        Some(s) => split_lines(s.as_str()),
        None => {
            let r: Vec<String> = Vec::new();
            assert(views(r@) =~= Seq::<Seq<char>>::empty());
            r
        },
    }
}

/// The entry that a row of the local store gives: its blocks split into
/// lines and one pronunciation from its phonetic field, without recording.
pub open spec fn local_entry(d: StarWord) -> WordView {
    WordView {
        hw: d.word@,
        def: block_lines(d.definition),
        trans: block_lines(d.translation),
        prs: seq![PrsView { ipa: opt_view(d.phonetic), audio: None }],
    }
}

/// Turns a row of the local store into a canonical entry.
pub fn word_from_local(d: StarWord) -> (r: Word)
    ensures
        r@ == local_entry(d),
{
    let ghost d0 = d;
    let def = chunck_def(d.definition);
    let trans = chunck_def(d.translation);
    let mut prs: Vec<Prs> = Vec::new();
    prs.push(Prs { ipa: d.phonetic, audio: None });
    let r = Word { hw: d.word, def, trans, prs };
    assert(prs_views(r.prs@) =~= seq![PrsView { ipa: opt_view(d0.phonetic), audio: None }]);
    r
}

/// A remote pronunciation in the canonical form: both parts known.
pub fn mw_prs_to_prs(mw: &Pronounce) -> (r: Prs)
    ensures
        r@ == (PrsView { ipa: Some(mw.ipa@), audio: Some(mw.audio@) }),
{
    Prs { ipa: Some(mw.ipa.clone()), audio: Some(mw.audio.clone()) }
}

} // verus!
