//! Values of database columns, and what the library reads from them.
use vstd::prelude::*;
use crate::content;
use crate::outside;
use crate::text;

verus! {

/// A column of a row as the database hands it out.
#[derive(Debug, Clone)]
pub enum Cell {
    /// No value.
    Null,
    /// An integer.
    Integer(i64),
    /// A floating-point number, which the library never reads.
    Real,
    /// A text.
    Text(String),
    /// A text that is not valid UTF-8.
    BadText,
    /// Bytes, such as a text that was stored packed.
    Blob(Vec<u8>),
}

/// A column value as a mathematical value.
pub enum CellView {
    Null,
    Integer(i64),
    Real,
    Text(Seq<char>),
    BadText,
    Blob(Seq<u8>),
}

impl View for Cell {
    type V = CellView;

    open spec fn view(&self) -> CellView {
        match self {
            Cell::Null => CellView::Null,
            Cell::Integer(i) => CellView::Integer(*i),
            Cell::Real => CellView::Real,
            Cell::Text(s) => CellView::Text(s@),
            Cell::BadText => CellView::BadText,
            Cell::Blob(b) => CellView::Blob(b@),
        }
    }
}

/// The views of a list of values.
pub open spec fn views_of<T: View>(s: Seq<T>) -> Seq<T::V> {
    Seq::new(s.len(), |i: int| s[i]@)
}

/// An integer column, where a missing value counts as zero and any other kind
/// of value is an error.
pub open spec fn int_or_zero(c: CellView) -> Option<i64> {
    match c {
        CellView::Null => Some(0i64),
        CellView::Integer(i) => Some(i),
        _ => None,
    }
}

/// A 32-bit integer column, where a missing value counts as zero.
pub open spec fn small_int_or_zero(c: CellView) -> Option<i32> {
    match int_or_zero(c) {
        Some(i) => if i32::MIN <= i <= i32::MAX {
            Some(i as i32)
        } else {
            None
        },
        None => None,
    }
}

/// A text column, where a missing value counts as empty.
pub open spec fn text_or_empty(c: CellView) -> Option<Seq<char>> {
    match c {
        CellView::Null => Some(Seq::empty()),
        CellView::Text(s) => Some(s),
        _ => None,
    }
}

/// A text column that must hold a text.
pub open spec fn text_of(c: CellView) -> Option<Seq<char>> {
    match c {
        CellView::Text(s) => Some(s),
        _ => None,
    }
}

/// The text of a column whose bytes may be packed; empty for any value that is
/// neither a text nor bytes.
pub open spec fn unpacked_text(c: CellView) -> Seq<char> {
    match c {
        CellView::Text(s) => s,
        CellView::Blob(b) => content::blob_text(b),
        _ => Seq::empty(),
    }
}

/// The text of a column whose bytes are plain UTF-8.
pub open spec fn plain_text(c: CellView) -> Seq<char> {
    match c {
        CellView::Text(s) => s,
        CellView::Blob(b) => outside::utf8_lossy(b),
        _ => Seq::empty(),
    }
}

/// The texts among some column values, in order.
pub open spec fn texts(cells: Seq<CellView>) -> Seq<Seq<char>>
    decreases cells.len(),
{
    if cells.len() == 0 {
        Seq::empty()
    } else {
        match cells.last() {
            CellView::Text(s) => texts(cells.drop_last()).push(s),
            _ => texts(cells.drop_last()),
        }
    }
}

impl Cell {
    /// An integer column, where a missing value counts as zero.
    pub fn get_int_or_zero(&self) -> (r: Option<i64>)
        ensures
            r == int_or_zero(self@),
    {
        match self {
            Cell::Null => Some(0),
            Cell::Integer(i) => Some(*i),
            _ => None,
        }
    }

    /// A 32-bit integer column, where a missing value counts as zero.
    pub fn get_small_int_or_zero(&self) -> (r: Option<i32>)
        ensures
            r == small_int_or_zero(self@),
    {
        match self.get_int_or_zero() {
            Some(i) => if i32::MIN as i64 <= i && i <= i32::MAX as i64 {
                Some(i as i32)
            } else {
                None
            },
            None => None,
        }
    }

    /// An integer column that must hold an integer.
    pub fn get_int(&self) -> (r: Option<i64>)
        ensures
            r == match self@ {
                CellView::Integer(i) => Some(i),
                _ => None,
            },
    {
        match self {
            Cell::Integer(i) => Some(*i),
            _ => None,
        }
    }

    /// A text column, where a missing value counts as empty.
    pub fn get_text_or_empty(&self) -> (r: Option<String>)
        ensures
            text::opt_view(r) == text_or_empty(self@),
    {
        match self {
            Cell::Null => Some(String::new()),
            Cell::Text(s) => Some(s.clone()),
            _ => None,
        }
    }

    /// A text column that must hold a text.
    pub fn get_text(&self) -> (r: Option<String>)
        ensures
            text::opt_view(r) == text_of(self@),
    {
        match self {
            Cell::Text(s) => Some(s.clone()),
            _ => None,
        }
    }

    /// The text of a column whose bytes are plain UTF-8.
    pub fn get_plain_text(&self) -> (r: String)
        ensures
            r@ == plain_text(self@),
    {
        match self {
            Cell::Text(s) => s.clone(),
            Cell::Blob(b) => outside::lossy_string(b),
            _ => String::new(),
        }
    }
}

/// The text of a column whose bytes may be packed.
pub fn wcdb_get_text(cell: &Cell) -> (r: String)
    ensures
        r@ == unpacked_text(cell@),
{
    match cell {
        Cell::Text(s) => s.clone(),
        Cell::Blob(b) => content::decompress_wcdb_content(b),
        _ => String::new(),
    }
}

/// The texts among some column values, in order.
pub fn texts_in(cells: &Vec<Cell>) -> (r: Vec<String>)
    ensures
        text::views(r@) == texts(views_of(cells@)),
{
    let mut r: Vec<String> = Vec::new();
    let mut i: usize = 0;
    assert(text::views(r@) =~= texts(views_of(cells@).take(0)));
    while i < cells.len()
        invariant
            0 <= i <= cells@.len(),
            text::views(r@) == texts(views_of(cells@).take(i as int)),
        decreases cells@.len() - i,
    {
        let ghost before = r@;
        proof {
            let next = views_of(cells@).take(i + 1);
            assert(next.drop_last() =~= views_of(cells@).take(i as int));
            assert(next.last() == cells@[i as int]@);
        }
        if let Some(s) = cells[i].get_text() {
            r.push(s);
            assert(text::views(r@) =~= text::views(before).push(s@));
        }
        i += 1;
    }
    assert(views_of(cells@).take(cells@.len() as int) =~= views_of(cells@));
    r
}

/// The texts of two lists of columns, one behind the other, are those of the
/// first and then those of the second; a text stays, anything else gives none.
pub proof fn law_texts_one_by_one(a: Seq<CellView>, b: Seq<CellView>, s: Seq<char>, c: CellView)
    ensures
        texts(a + b) == texts(a) + texts(b),
        texts(seq![CellView::Text(s)]) == seq![s],
        !(c is Text) ==> texts(seq![c]) == Seq::<Seq<char>>::empty(),
    decreases b.len(),
{
    if b.len() == 0 {
        assert(a + b =~= a);
        assert(texts(a) + texts(b) =~= texts(a));
    } else {
        law_texts_one_by_one(a, b.drop_last(), s, c);
        assert((a + b).drop_last() =~= a + b.drop_last());
        assert(texts(a + b) =~= texts(a) + texts(b));
    }
    assert(seq![CellView::Text(s)].drop_last() =~= Seq::empty());
    assert(texts(seq![CellView::Text(s)].drop_last()) =~= Seq::empty());
    assert(texts(seq![CellView::Text(s)]) =~= seq![s]);
    assert(seq![c].drop_last() =~= Seq::empty());
}

/// A column is read as what it holds; a missing value counts as zero or as no
/// text, and a value of another kind, or too large, as none.
pub proof fn law_columns_are_read(i: i64, s: Seq<char>, b: Seq<u8>)
    ensures
        int_or_zero(CellView::Integer(i)) == Some(i),
        int_or_zero(CellView::Null) == Some(0i64),
        int_or_zero(CellView::Text(s)) is None,
        int_or_zero(CellView::Blob(b)) is None,
        int_or_zero(CellView::Real) is None,
        -0x8000_0000 <= i < 0x8000_0000 ==> (small_int_or_zero(CellView::Integer(i)) matches Some(n)
            && n == i),
        !(-0x8000_0000 <= i < 0x8000_0000) ==> small_int_or_zero(CellView::Integer(i)) is None,
        small_int_or_zero(CellView::Null) == Some(0i32),
        small_int_or_zero(CellView::Text(s)) is None,
        text_or_empty(CellView::Text(s)) == Some(s),
        text_or_empty(CellView::Null) == Some(Seq::<char>::empty()),
        text_or_empty(CellView::Integer(i)) is None,
        text_or_empty(CellView::Blob(b)) is None,
        text_or_empty(CellView::BadText) is None,
        text_of(CellView::Text(s)) == Some(s),
        text_of(CellView::Null) is None,
        text_of(CellView::Integer(i)) is None,
        text_of(CellView::Blob(b)) is None,
        unpacked_text(CellView::Text(s)) == s,
        plain_text(CellView::Text(s)) == s,
        plain_text(CellView::Blob(b)) == outside::utf8_lossy(b),
        unpacked_text(CellView::Null) == Seq::<char>::empty(),
        plain_text(CellView::Null) == Seq::<char>::empty(),
        unpacked_text(CellView::Integer(i)) == Seq::<char>::empty(),
        plain_text(CellView::Integer(i)) == Seq::<char>::empty(),
{
}

} // verus!
