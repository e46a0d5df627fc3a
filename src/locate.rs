//! Finding the word under a point in an OCR layout.
use vstd::prelude::*;
use crate::text::{
    decimal_positive, i32_value, is_decimal, parse_confidence, parse_i32, pieces_on,
    split_lines, split_on_char, text_lines, views,
};

verus! {

/// Whether a character outside ASCII is alphabetic (`\p{Alphabetic}`) or a
/// number (`\p{N}`) in the regex crate's Unicode tables.
pub uninterp spec fn unicode_alphanumeric(c: char) -> bool;

/// The delimiter class: every character that is neither a letter nor a
/// digit. In ASCII that is all but `a`-`z`, `A`-`Z` and `0`-`9`.
pub open spec fn is_delimiter(c: char) -> bool {
    if (c as u32) < 128 {
        !(('a' <= c && c <= 'z') || ('A' <= c && c <= 'Z') || ('0' <= c && c <= '9'))
    } else {
        !unicode_alphanumeric(c)
    }
}

/// The text of the delimiter class as a regular expression:
/// `[^\p{Alphabetic}\p{N}]`.
pub open spec fn delimiter_pattern() -> Seq<char> {
    seq![
        '[', '^', '\\', 'p', '{', 'A', 'l', 'p', 'h', 'a', 'b', 'e', 't', 'i', 'c', '}', '\\',
        'p', '{', 'N', '}', ']',
    ]
}

/// Whether a delimiter occurs in `s`.
pub open spec fn has_delimiter(s: Seq<char>) -> bool {
    exists|i: int| 0 <= i < s.len() && is_delimiter(#[trigger] s[i])
}

/// The pieces of `s` between delimiters; `n` delimiters give `n + 1` pieces.
pub open spec fn delimiter_pieces(s: Seq<char>) -> Seq<Seq<char>>
    decreases s.len(),
{
    if s.len() == 0 {
        seq![Seq::<char>::empty()]
    } else {
        let rest = delimiter_pieces(s.drop_last());
        if is_delimiter(s.last()) {
            rest.push(Seq::<char>::empty())
        } else {
            rest.update(rest.len() - 1, rest.last().push(s.last()))
        }
    }
}

/// What `str::to_lowercase` makes of a text.
pub uninterp spec fn lower_of(s: Seq<char>) -> Seq<char>;

/// Relies on `regex::Regex::is_match`: whether a character of the class
/// occurs in `text` (the class matches one character at a time).
#[verifier::external_body]
fn delimiter_found(pattern: &str, text: &str) -> (r: bool)
    requires
        pattern@ == delimiter_pattern(),
    ensures
        r == (exists|i: int| 0 <= i < text@.len() && ((#[trigger] text@[i] as u32) < 128 ==> is_delimiter(text@[i])) && ((text@[i] as u32) >= 128 ==> !unicode_alphanumeric(text@[i]))),
{
    regex::Regex::new(pattern).unwrap().is_match(text)
}

/// Relies on `regex::Regex::split`: the parts of `text` between matches of
/// the class, empty parts included.
#[verifier::external_body]
fn delimiter_split(pattern: &str, text: &str) -> (r: Vec<String>)
    requires
        pattern@ == delimiter_pattern(),
    ensures
        views(r@) == delimiter_pieces(text@),
{
    regex::Regex::new(pattern).unwrap().split(text).map(|p| p.to_string()).collect()
}

/// Relies on `str::to_lowercase`: the result depends on the characters alone.
#[verifier::external_body]
fn lowercase(s: &str) -> (r: String)
    ensures
        r@ == lower_of(s@),
{
    s.to_lowercase()
}

/// Where the point falls in a run of `len` characters spread over `width`
/// pixels, counted in characters.
pub open spec fn token_estimate(len: int, x: int, width: int) -> int {
    len * x / width
}

/// The first piece whose end, counted with one character for each delimiter
/// before it, lies past `estimate`.
pub open spec fn first_reaching(pieces: Seq<Seq<char>>, estimate: int, acc: int) -> Option<
    Seq<char>,
>
    decreases pieces.len(),
{
    if pieces.len() == 0 {
        None
    } else if pieces[0].len() + acc > estimate {
        Some(pieces[0])
    } else {
        first_reaching(pieces.drop_first(), estimate, pieces[0].len() + acc + 1)
    }
}

/// The token of `text` under a point `x` pixels into a box `width` pixels wide.
pub open spec fn token_at(text: Seq<char>, x: int, width: int) -> Seq<char> {
    if !has_delimiter(text) {
        text
    } else {
        match first_reaching(delimiter_pieces(text), token_estimate(text.len() as int, x, width), 0) {
            Some(t) => t,
            None => text,
        }
    }
}

/// The token of `line_part` under a point `x` pixels into a box `width`
/// pixels wide.
///
/// A text without delimiters comes back whole, wherever the point lies.
pub fn extract_single_word(line_part: &str, x: i32, width: i32) -> (r: String)
    requires
        0 <= x,
        0 < width,
    ensures
        r@ == token_at(line_part@, x as int, width as int),
        !has_delimiter(line_part@) ==> r@ == line_part@,
{
    let pattern = "[^\\p{Alphabetic}\\p{N}]";
    proof {
        reveal_strlit("[^\\p{Alphabetic}\\p{N}]");
    }
    assert(pattern@ =~= delimiter_pattern());
    let found = delimiter_found(pattern, line_part);
    assert(found == has_delimiter(line_part@));
    if !found {
        return line_part.to_owned();
    }
    let len = line_part.unicode_len();
    assert(0 <= (len as u128) * (x as u128) <= 0xffff_ffff_ffff_ffff * 0x7fff_ffff)
        by (nonlinear_arith)
        requires
            0 <= len <= 0xffff_ffff_ffff_ffff,
            0 <= x <= 0x7fff_ffff,
    ;
    let product: u128 = (len as u128) * (x as u128);
    assert(product as int == line_part@.len() * x);
    let estimate: u128 = product / (width as u128);
    assert(estimate <= product) by (nonlinear_arith)
        requires
            estimate == product as int / width as int,
            0 <= product,
            width >= 1,
    ;
    let segs = delimiter_split(pattern, line_part);
    let ghost ps = delimiter_pieces(line_part@);
    let mut acc: u128 = 0;
    let mut i: usize = 0;
    assert(ps.subrange(0, ps.len() as int) =~= ps);
    while i < segs.len()
        invariant
            views(segs@) == ps,
            ps == delimiter_pieces(line_part@),
            has_delimiter(line_part@),
            estimate as int == token_estimate(line_part@.len() as int, x as int, width as int),
            i <= segs@.len(),
            acc <= estimate + 1,
            estimate <= 0xffff_ffff_ffff_ffff * 0x7fff_ffff,
            first_reaching(ps.subrange(i as int, ps.len() as int), estimate as int, acc as int)
                == first_reaching(ps, estimate as int, 0),
        decreases segs@.len() - i,
    {
        let seg_len = segs[i].as_str().unicode_len();
        assert(views(segs@)[i as int] == segs@[i as int]@);
        let ghost rest = ps.subrange(i as int, ps.len() as int);
        assert(rest[0] == ps[i as int]);
        assert(rest.drop_first() =~= ps.subrange(i as int + 1, ps.len() as int));
        if seg_len as u128 + acc > estimate {
            return segs[i].clone();
        }
        acc = seg_len as u128 + acc + 1;
        i = i + 1;
    }
    assert(ps.subrange(i as int, ps.len() as int) =~= Seq::<Seq<char>>::empty());
    line_part.to_owned()
}

/// Why no word could be read at a point.
#[derive(Clone, Copy, Debug, PartialEq, Eq, Structural)]
pub enum LocateError {
    /// A row of the layout does not have its twelve tab-separated fields.
    BadRow,
    /// A coordinate or the confidence of a row is not a number.
    BadNumber,
    /// No box of the layout holds the point.
    WordNotFoundAtPoint,
    /// The box under the point gives an empty token.
    EmptyWord,
}

/// A box of an OCR layout: its rectangle, whether its confidence is above
/// zero, and its text.
#[derive(Debug)]
pub struct TextBox {
    pub left: i32,
    pub top: i32,
    pub width: i32,
    pub height: i32,
    pub confident: bool,
    pub text: String,
}

/// The tab-separated fields of a layout row.
pub open spec fn row_fields(line: Seq<char>) -> Seq<Seq<char>> {
    pieces_on(line, '\t')
}

/// What is wrong with a layout row, if anything: the number of fields, then
/// the four coordinates (fields 6 to 9) and the confidence (field 10).
pub open spec fn row_error(line: Seq<char>) -> Option<LocateError> {
    let f = row_fields(line);
    if f.len() != 12 {
        Some(LocateError::BadRow)
    } else if i32_value(f[6]) is None || i32_value(f[7]) is None || i32_value(f[8]) is None
        || i32_value(f[9]) is None || !is_decimal(f[10]) {
        Some(LocateError::BadNumber)
    } else {
        None
    }
}

/// The integer in field `k` of a well-formed row.
pub open spec fn row_value(line: Seq<char>, k: int) -> int {
    i32_value(row_fields(line)[k])->0 as int
}

/// Whether the point lies strictly inside the box of a well-formed row whose
/// confidence is above zero.
pub open spec fn row_hit(line: Seq<char>, pos: (i32, i32)) -> bool {
    let x = pos.0 - row_value(line, 6);
    let y = pos.1 - row_value(line, 7);
    &&& 0 < x < row_value(line, 8)
    &&& 0 < y < row_value(line, 9)
    &&& decimal_positive(row_fields(line)[10])
}

/// The lowercased token under the point in a row that it hits.
pub open spec fn row_word(line: Seq<char>, pos: (i32, i32)) -> Seq<char> {
    lower_of(token_at(row_fields(line)[11], pos.0 - row_value(line, 6), row_value(line, 8)))
}

/// The word under `pos` in the layout rows `lines`: the first row whose box
/// holds the point decides, and a malformed row before it is an error.
pub open spec fn locate(lines: Seq<Seq<char>>, pos: (i32, i32)) -> Result<Seq<char>, LocateError>
    decreases lines.len(),
{
    if lines.len() == 0 {
        Err(LocateError::WordNotFoundAtPoint)
    } else if row_error(lines[0]) is Some {
        Err(row_error(lines[0])->0)
    } else if row_hit(lines[0], pos) {
        if row_word(lines[0], pos).len() == 0 {
            Err(LocateError::EmptyWord)
        } else {
            Ok(row_word(lines[0], pos))
        }
    } else {
        locate(lines.drop_first(), pos)
    }
}

/// A row under the point whose text has no delimiter gives its whole text,
/// lowercased, wherever the point lies in the box.
pub proof fn lemma_undelimited_row_gives_whole_text(line: Seq<char>, pos: (i32, i32))
    requires
        row_error(line) is None,
        row_hit(line, pos),
        !has_delimiter(row_fields(line)[11]),
    ensures
        row_word(line, pos) == lower_of(row_fields(line)[11]),
{
}

/// A result with the word as its text.
pub open spec fn word_result(r: Result<String, LocateError>) -> Result<Seq<char>, LocateError> {
    match r {
        Ok(w) => Ok(w@),
        Err(e) => Err(e),
    }
}

/// Reads one row of a layout in Tesseract's TSV form.
pub fn parse_tsv_row(line: &str) -> (r: Result<TextBox, LocateError>)
    ensures
        match r {
            Ok(b) => {
                &&& row_error(line@) is None
                &&& b.left == row_value(line@, 6)
                &&& b.top == row_value(line@, 7)
                &&& b.width == row_value(line@, 8)
                &&& b.height == row_value(line@, 9)
                &&& b.confident == decimal_positive(row_fields(line@)[10])
                &&& b.text@ == row_fields(line@)[11]
            },
            Err(e) => row_error(line@) == Some(e),
        },
{
    let parts = split_on_char(line, '\t');
    let ghost f = row_fields(line@);
    if parts.len() != 12 {
        return Err(LocateError::BadRow);
    }
    assert(forall|k: int| 0 <= k < 12 ==> #[trigger] parts@[k]@ == f[k]) by {
        assert forall|k: int| 0 <= k < 12 implies #[trigger] parts@[k]@ == f[k] by {
            assert(views(parts@)[k] == parts@[k]@);
        }
    }
    let left = parse_i32(parts[6].as_str());
    let top = parse_i32(parts[7].as_str());
    let width = parse_i32(parts[8].as_str());
    let height = parse_i32(parts[9].as_str());
    let conf = parse_confidence(parts[10].as_str());
    match (left, top, width, height, conf) {
        (Some(left), Some(top), Some(width), Some(height), Some(confident)) => Ok(
            TextBox { left, top, width, height, confident, text: parts[11].clone() },
        ),
        _ => Err(LocateError::BadNumber),
    }
}

/// The word under `pos` in a layout in Tesseract's TSV form, lowercased.
///
/// Rows are read in order and the first whose box holds the point, with a
/// confidence above zero, gives the word.
pub fn find_word_in_pos(tsv: &str, pos: (i32, i32)) -> (r: Result<String, LocateError>)
    ensures
        word_result(r) == locate(text_lines(tsv@), pos),
{
    let lines = split_lines(tsv);
    let ghost ls = text_lines(tsv@);
    let mut i: usize = 0;
    assert(ls.subrange(0, ls.len() as int) =~= ls);
    while i < lines.len()
        invariant
            views(lines@) == ls,
            ls == text_lines(tsv@),
            i <= lines@.len(),
            locate(ls.subrange(i as int, ls.len() as int), pos) == locate(ls, pos),
        decreases lines@.len() - i,
    {
        let ghost rest = ls.subrange(i as int, ls.len() as int);
        assert(views(lines@)[i as int] == lines@[i as int]@);
        assert(rest[0] == ls[i as int]);
        assert(rest.drop_first() =~= ls.subrange(i as int + 1, ls.len() as int));
        let b = match parse_tsv_row(lines[i].as_str()) {
            Ok(b) => b,
            Err(e) => {
                return Err(e);
            },
        };
        let x: i64 = pos.0 as i64 - b.left as i64;
        let y: i64 = pos.1 as i64 - b.top as i64;
        if 0 < x && x < b.width as i64 && 0 < y && y < b.height as i64 && b.confident {
            let token = extract_single_word(b.text.as_str(), x as i32, b.width);
            let word = lowercase(token.as_str());
            if word.as_str().unicode_len() == 0 {
                return Err(LocateError::EmptyWord);
            }
            return Ok(word);
        }
        i = i + 1;
    }
    assert(ls.subrange(i as int, ls.len() as int) =~= Seq::<Seq<char>>::empty());
    Err(LocateError::WordNotFoundAtPoint)
}

/// A quadrangle found by a text detector, corner by corner; the second and
/// the fourth corners are opposite.
pub type Quadrangle = [(i32, i32); 4];

/// Whether `pos` lies strictly between the second and the fourth corner.
pub open spec fn in_region(pos: [i32; 2], region: Quadrangle) -> bool {
    let top_left = region@[1];
    let bottom_right = region@[3];
    pos[0] > top_left.0 && pos[1] > top_left.1 && pos[0] < bottom_right.0 && pos[1]
        < bottom_right.1
}

/// Whether `pos` lies in the quadrangle, taking two opposite corners as its
/// bounding box.
pub fn if_point_in_region(pos: [i32; 2], region: &Quadrangle) -> (r: bool)
    ensures
        r == in_region(pos, *region),
{
    let top_left = region[1];
    let bottom_right = region[3];
    let x = pos[0];
    let y = pos[1];
    x > top_left.0 && y > top_left.1 && x < bottom_right.0 && y < bottom_right.1
}

/// The index of the first quadrangle that holds `pos`.
pub fn region_at_point(regions: &Vec<Quadrangle>, pos: [i32; 2]) -> (r: Option<usize>)
    ensures
        match r {
            Some(k) => k < regions@.len() && in_region(pos, regions@[k as int]) && forall|j: int|
                0 <= j < k ==> !in_region(pos, #[trigger] regions@[j]),
            None => forall|j: int| 0 <= j < regions@.len() ==> !in_region(pos, #[trigger] regions@[j]),
        },
{
    let mut k: usize = 0;
    while k < regions.len()
        invariant
            k <= regions@.len(),
            forall|j: int| 0 <= j < k ==> !in_region(pos, #[trigger] regions@[j]),
        decreases regions@.len() - k,
    {
        if if_point_in_region(pos, &regions[k]) {
            return Some(k);
        }
        k = k + 1;
    }
    None
}

} // verus!
