//! The structure of MPS model files.
//!
//! A file is read as bytes: lines end at `\n`, and the fields of a line are
//! its maximal runs of non-blank bytes (blank: space, tab, carriage return).
//! Section headers (`ROWS`, `COLUMNS`, `RHS`, `BOUNDS`, `RANGES`, `ENDATA`,
//! in any letter case) stand alone on their line; lines whose first field
//! starts with `*` are comments. The reader collects the
//! rows, the matrix entries, the right-hand sides and the bounds, keeping
//! numbers as the text that was written.
use vstd::prelude::*;

verus! {

/// Space, tab or carriage return.
pub open spec fn is_blank(b: u8) -> bool {
    b == 32 || b == 9 || b == 13
}

/// End of line.
pub open spec fn is_newline(b: u8) -> bool {
    b == 10
}

/// Index just past the field that starts at `i`.
pub open spec fn field_end(s: Seq<u8>, i: int) -> int
    decreases s.len() - i,
{
    if i < 0 || i >= s.len() || is_newline(s[i]) || is_blank(s[i]) {
        i
    } else {
        field_end(s, i + 1)
    }
}

/// Index of the newline that ends the line through `i`, or the length.
pub open spec fn line_end(s: Seq<u8>, i: int) -> int
    decreases s.len() - i,
{
    if i < 0 || i >= s.len() || is_newline(s[i]) {
        i
    } else {
        line_end(s, i + 1)
    }
}

/// The fields from `i` to the end of its line.
pub open spec fn fields_from(s: Seq<u8>, i: int) -> Seq<Seq<u8>>
    decreases s.len() - i,
{
    if i < 0 || i >= s.len() || is_newline(s[i]) {
        Seq::empty()
    } else if is_blank(s[i]) {
        fields_from(s, i + 1)
    } else {
        let j = field_end(s, i);
        if j <= i || j > s.len() {
            Seq::empty()
        } else {
            seq![s.subrange(i, j)] + fields_from(s, j)
        }
    }
}

/// The fields of each line from the line that starts at `i` on.
pub open spec fn records_from(s: Seq<u8>, i: int) -> Seq<Seq<Seq<u8>>>
    decreases s.len() - i,
{
    if i < 0 || i >= s.len() {
        Seq::empty()
    } else {
        let e = line_end(s, i);
        if e < i || e >= s.len() {
            seq![fields_from(s, i)]
        } else {
            seq![fields_from(s, i)] + records_from(s, e + 1)
        }
    }
}

/// The fields of each line of `s`.
pub open spec fn records(s: Seq<u8>) -> Seq<Seq<Seq<u8>>> {
    records_from(s, 0)
}

proof fn lemma_field_end_bounds(s: Seq<u8>, i: int)
    requires
        0 <= i <= s.len(),
    ensures
        i <= field_end(s, i) <= line_end(s, i) <= s.len(),
        forall|k: int| i <= k < field_end(s, i) ==> !is_blank(s[k]) && !is_newline(s[k]),
    decreases s.len() - i,
{
    if i < s.len() && !is_newline(s[i]) {
        lemma_field_end_bounds(s, i + 1);
    }
}

proof fn lemma_line_end_bounds(s: Seq<u8>, i: int)
    requires
        0 <= i <= s.len(),
    ensures
        i <= line_end(s, i) <= s.len(),
        line_end(s, i) < s.len() ==> is_newline(s[line_end(s, i)]),
        forall|k: int| i <= k < line_end(s, i) ==> !is_newline(s[k]),
    decreases s.len() - i,
{
    if i < s.len() && !is_newline(s[i]) {
        lemma_line_end_bounds(s, i + 1);
    }
}

/// A copy of `s[lo..hi]`.
pub(crate) fn copy_range(s: &[u8], lo: usize, hi: usize) -> (r: Vec<u8>)
    requires
        lo <= hi <= s@.len(),
    ensures
        r@ == s@.subrange(lo as int, hi as int),
{
    let mut r: Vec<u8> = Vec::new();
    let mut k: usize = lo;
    while k < hi
        invariant
            lo <= k <= hi <= s@.len(),
            r@ == s@.subrange(lo as int, k as int),
        decreases hi - k,
    {
        r.push(s[k]);
        k = k + 1;
        assert(r@ =~= s@.subrange(lo as int, k as int));
    }
    r
}

/// The byte strings of `v`.
pub open spec fn bytes_view(v: Seq<Vec<u8>>) -> Seq<Seq<u8>> {
    v.map_values(|x: Vec<u8>| x@)
}

/// The fields of the line through `start`, and where that line ends.
pub fn split_fields(s: &[u8], start: usize) -> (r: (Vec<Vec<u8>>, usize))
    requires
        start <= s@.len(),
    ensures
        bytes_view(r.0@) == fields_from(s@, start as int),
        r.1 == line_end(s@, start as int),
{
    let n = s.len();
    let mut acc: Vec<Vec<u8>> = Vec::new();
    let mut i: usize = start;
    proof {
        lemma_line_end_bounds(s@, start as int);
    }
    while i < n && s[i] != 10
        invariant
            n == s@.len(),
            start <= i <= line_end(s@, start as int) <= n,
            line_end(s@, i as int) == line_end(s@, start as int),
            bytes_view(acc@) + fields_from(s@, i as int) == fields_from(s@, start as int),
        decreases n - i,
    {
        proof {
            lemma_line_end_bounds(s@, i as int);
            lemma_field_end_bounds(s@, i as int);
        }
        if s[i] == 32 || s[i] == 9 || s[i] == 13 {
            i = i + 1;
        } else {
            let mut j: usize = i;
            while j < n && s[j] != 10 && s[j] != 32 && s[j] != 9 && s[j] != 13
                invariant
                    n == s@.len(),
                    i <= j <= n,
                    field_end(s@, j as int) == field_end(s@, i as int),
                    line_end(s@, j as int) == line_end(s@, i as int),
                decreases n - j,
            {
                j = j + 1;
            }
            let field = copy_range(s, i, j);
            proof {
                assert(j > i);
                lemma_field_end_bounds(s@, i as int);
                assert(fields_from(s@, i as int) == seq![s@.subrange(i as int, j as int)] + fields_from(s@, j as int));
                let before = bytes_view(acc@);
                assert(bytes_view(acc@.push(field)) =~= before.push(field@));
                assert(before.push(field@) + fields_from(s@, j as int) =~= before + (seq![field@] + fields_from(s@, j as int)));
            }
            acc.push(field);
            i = j;
        }
    }
    (acc, i)
}

/// The kind of a row of the ROWS section.
#[derive(Copy, Clone, Debug, PartialEq, Eq, Structural)]
pub enum RowKind {
    /// `N`: the objective, minimised.
    Objective,
    /// `L`: `<=`.
    Leq,
    /// `G`: `>=`.
    Geq,
    /// `E`: `=`.
    Eq,
}

/// The code of a line of the BOUNDS section.
#[derive(Copy, Clone, Debug, PartialEq, Eq, Structural)]
pub enum BoundCode {
    /// `UP`: upper bound.
    Up,
    /// `LO`: lower bound.
    Lo,
    /// `FX`: fixed value.
    Fx,
    /// `FR`: free variable.
    Fr,
    /// `MI`: no lower bound.
    Mi,
    /// `BV`: binary variable.
    Bv,
}

/// Where the reader stands in a file.
#[derive(Copy, Clone, Debug, PartialEq, Eq, Structural)]
pub enum Section {
    /// Before the first header.
    Start,
    Rows,
    Columns,
    Rhs,
    Bounds,
    /// Ranges are read over and not kept.
    Ranges,
    /// After `ENDATA`: the rest of the file is ignored.
    End,
}

/// The words that the reader recognises.
#[derive(Copy, Clone, Debug, PartialEq, Eq, Structural)]
pub enum Word {
    Rows,
    Columns,
    Rhs,
    Bounds,
    Ranges,
    Endata,
    Up,
    Lo,
    Fx,
    Fr,
    Mi,
    Bv,
}

/// The ASCII bytes of each word, in capitals.
pub open spec fn word_text(w: Word) -> Seq<u8> {
    match w {
        Word::Rows => seq![82u8, 79, 87, 83],
        Word::Columns => seq![67u8, 79, 76, 85, 77, 78, 83],
        Word::Rhs => seq![82u8, 72, 83],
        Word::Bounds => seq![66u8, 79, 85, 78, 68, 83],
        Word::Ranges => seq![82u8, 65, 78, 71, 69, 83],
        Word::Endata => seq![69u8, 78, 68, 65, 84, 65],
        Word::Up => seq![85u8, 80],
        Word::Lo => seq![76u8, 79],
        Word::Fx => seq![70u8, 88],
        Word::Fr => seq![70u8, 82],
        Word::Mi => seq![77u8, 73],
        Word::Bv => seq![66u8, 86],
    }
}

/// ASCII upper case of a byte.
pub open spec fn upper(b: u8) -> u8 {
    if 97 <= b <= 122 {
        (b - 32) as u8
    } else {
        b
    }
}

/// `f` spells `w` in any mix of letter cases.
pub open spec fn spells(f: Seq<u8>, w: Word) -> bool {
    &&& f.len() == word_text(w).len()
    &&& forall|k: int| 0 <= k < f.len() ==> upper(f[k]) == word_text(w)[k]
}

/// The section that a line opens, if it is a header: a line of one field
/// spelling a section name.
pub open spec fn header(rec: Seq<Seq<u8>>) -> Option<Section> {
    if rec.len() != 1 {
        None
    } else if spells(rec[0], Word::Rows) {
        Some(Section::Rows)
    } else if spells(rec[0], Word::Columns) {
        Some(Section::Columns)
    } else if spells(rec[0], Word::Rhs) {
        Some(Section::Rhs)
    } else if spells(rec[0], Word::Bounds) {
        Some(Section::Bounds)
    } else if spells(rec[0], Word::Ranges) {
        Some(Section::Ranges)
    } else if spells(rec[0], Word::Endata) {
        Some(Section::End)
    } else {
        None
    }
}

/// The kind named by the first letter of a ROWS field.
pub open spec fn row_kind(f: Seq<u8>) -> Option<RowKind> {
    if f.len() == 0 {
        None
    } else if upper(f[0]) == 78 {
        Some(RowKind::Objective)
    } else if upper(f[0]) == 76 {
        Some(RowKind::Leq)
    } else if upper(f[0]) == 71 {
        Some(RowKind::Geq)
    } else if upper(f[0]) == 69 {
        Some(RowKind::Eq)
    } else {
        None
    }
}

/// The bound code that a BOUNDS field spells.
pub open spec fn bound_code(f: Seq<u8>) -> Option<BoundCode> {
    if spells(f, Word::Up) {
        Some(BoundCode::Up)
    } else if spells(f, Word::Lo) {
        Some(BoundCode::Lo)
    } else if spells(f, Word::Fx) {
        Some(BoundCode::Fx)
    } else if spells(f, Word::Fr) {
        Some(BoundCode::Fr)
    } else if spells(f, Word::Mi) {
        Some(BoundCode::Mi)
    } else if spells(f, Word::Bv) {
        Some(BoundCode::Bv)
    } else {
        None
    }
}

/// A comment line starts with `*`.
pub open spec fn is_comment(rec: Seq<Seq<u8>>) -> bool {
    rec.len() > 0 && rec[0].len() > 0 && rec[0][0] == 42
}

/// What a file says, with names and numbers as written.
pub struct MpsView {
    /// Row name and kind, in order of declaration.
    pub rows: Seq<(Seq<u8>, RowKind)>,
    /// Column, row and value of each matrix entry, in order.
    pub entries: Seq<(Seq<u8>, Seq<u8>, Seq<u8>)>,
    /// Row and value of each right-hand side, in order.
    pub rhs: Seq<(Seq<u8>, Seq<u8>)>,
    /// Code, column and value (if written) of each bound, in order.
    pub bounds: Seq<(BoundCode, Seq<u8>, Option<Seq<u8>>)>,
}

/// A COLUMNS line `col row value [row value]` holds one entry per pair.
pub open spec fn column_pairs(rec: Seq<Seq<u8>>) -> Seq<(Seq<u8>, Seq<u8>, Seq<u8>)> {
    if rec.len() < 3 {
        Seq::empty()
    } else {
        Seq::new(((rec.len() - 1) / 2) as nat, |p: int| (rec[0], rec[1 + 2 * p], rec[2 + 2 * p]))
    }
}

/// First field of the pairs of an RHS line: after the set name when the
/// line has an odd number of fields.
pub open spec fn rhs_start(rec: Seq<Seq<u8>>) -> int {
    if rec.len() % 2 == 1 {
        1
    } else {
        0
    }
}

/// An RHS line `[set] row value [row value]` holds one value per pair.
pub open spec fn rhs_pairs(rec: Seq<Seq<u8>>) -> Seq<(Seq<u8>, Seq<u8>)> {
    let st = rhs_start(rec);
    Seq::new(((rec.len() - st) / 2) as nat, |p: int| (rec[st + 2 * p], rec[st + 2 * p + 1]))
}

/// What one line of section `sec` adds.
pub open spec fn apply(sec: Section, doc: MpsView, rec: Seq<Seq<u8>>) -> MpsView {
    match sec {
        Section::Rows => if rec.len() >= 2 && row_kind(rec[0]) is Some {
            MpsView { rows: doc.rows.push((rec[1], row_kind(rec[0]).unwrap())), ..doc }
        } else {
            doc
        },
        Section::Columns => MpsView { entries: doc.entries + column_pairs(rec), ..doc },
        Section::Rhs => MpsView { rhs: doc.rhs + rhs_pairs(rec), ..doc },
        Section::Bounds => if rec.len() >= 3 && bound_code(rec[0]) is Some {
            let value = if rec.len() >= 4 {
                Some(rec[3])
            } else {
                None
            };
            MpsView { bounds: doc.bounds.push((bound_code(rec[0]).unwrap(), rec[2], value)), ..doc }
        } else {
            doc
        },
        _ => doc,
    }
}

/// Reading one line: a header changes section, any other line adds to the
/// current section; blank and comment lines, and everything after `ENDATA`,
/// change nothing.
pub open spec fn step(state: (Section, MpsView), rec: Seq<Seq<u8>>) -> (Section, MpsView) {
    let (sec, doc) = state;
    if sec is End || rec.len() == 0 || is_comment(rec) {
        state
    } else {
        match header(rec) {
            Some(h) => (h, doc),
            None => (sec, apply(sec, doc, rec)),
        }
    }
}

/// Nothing read yet.
pub open spec fn empty_view() -> MpsView {
    MpsView { rows: Seq::empty(), entries: Seq::empty(), rhs: Seq::empty(), bounds: Seq::empty() }
}

/// The state after reading the lines `recs` in order.
pub open spec fn read_records(recs: Seq<Seq<Seq<u8>>>) -> (Section, MpsView)
    decreases recs.len(),
{
    if recs.len() == 0 {
        (Section::Start, empty_view())
    } else {
        step(read_records(recs.drop_last()), recs.last())
    }
}

/// What the file `text` says.
pub open spec fn read_spec(text: Seq<u8>) -> MpsView {
    read_records(records(text)).1
}

/// A row of the ROWS section.
#[derive(Debug, Clone)]
pub struct MpsRow {
    pub name: Vec<u8>,
    pub kind: RowKind,
}

/// One entry of the COLUMNS section.
#[derive(Debug, Clone)]
pub struct MpsEntry {
    pub column: Vec<u8>,
    pub row: Vec<u8>,
    pub value: Vec<u8>,
}

/// One value of the RHS section.
#[derive(Debug, Clone)]
pub struct MpsRhs {
    pub row: Vec<u8>,
    pub value: Vec<u8>,
}

/// One line of the BOUNDS section.
#[derive(Debug, Clone)]
pub struct MpsBound {
    pub code: BoundCode,
    pub column: Vec<u8>,
    pub value: Option<Vec<u8>>,
}

/// The contents of an MPS file.
#[derive(Debug, Clone)]
pub struct MpsDocument {
    pub rows: Vec<MpsRow>,
    pub entries: Vec<MpsEntry>,
    pub rhs: Vec<MpsRhs>,
    pub bounds: Vec<MpsBound>,
}

impl MpsDocument {
    pub open spec fn view(&self) -> MpsView {
        MpsView {
            rows: self.rows@.map_values(|r: MpsRow| (r.name@, r.kind)),
            entries: self.entries@.map_values(|e: MpsEntry| (e.column@, e.row@, e.value@)),
            rhs: self.rhs@.map_values(|h: MpsRhs| (h.row@, h.value@)),
            bounds: self.bounds@.map_values(
                |b: MpsBound|
                    (
                        b.code,
                        b.column@,
                        match b.value {
                            Some(v) => Some(v@),
                            None => None,
                        },
                    ),
            ),
        }
    }
}

/// The bytes of a recognised word.
fn word(w: Word) -> (r: Vec<u8>)
    ensures
        r@ == word_text(w),
{
    let r: Vec<u8> = match w {
        Word::Rows => vec![82u8, 79, 87, 83],
        Word::Columns => vec![67u8, 79, 76, 85, 77, 78, 83],
        Word::Rhs => vec![82u8, 72, 83],
        Word::Bounds => vec![66u8, 79, 85, 78, 68, 83],
        Word::Ranges => vec![82u8, 65, 78, 71, 69, 83],
        Word::Endata => vec![69u8, 78, 68, 65, 84, 65],
        Word::Up => vec![85u8, 80],
        Word::Lo => vec![76u8, 79],
        Word::Fx => vec![70u8, 88],
        Word::Fr => vec![70u8, 82],
        Word::Mi => vec![77u8, 73],
        Word::Bv => vec![66u8, 86],
    };
    assert(r@ =~= word_text(w));
    r
}

fn upper_byte(b: u8) -> (r: u8)
    ensures
        r == upper(b),
{
    if 97 <= b && b <= 122 {
        b - 32
    } else {
        b
    }
}

/// Whether field `f` spells `w`, ignoring letter case.
fn spells_word(f: &Vec<u8>, w: Word) -> (r: bool)
    ensures
        r == spells(f@, w),
{
    let text = word(w);
    if f.len() != text.len() {
        return false;
    }
    let mut k: usize = 0;
    while k < f.len()
        invariant
            f@.len() == text@.len(),
            text@ == word_text(w),
            k <= f@.len(),
            forall|q: int| 0 <= q < k ==> upper(f@[q]) == word_text(w)[q],
        decreases f@.len() - k,
    {
        if upper_byte(f[k]) != text[k] {
            return false;
        }
        k = k + 1;
    }
    true
}

fn header_of(rec: &Vec<Vec<u8>>) -> (r: Option<Section>)
    ensures
        r == header(bytes_view(rec@)),
{
    if rec.len() != 1 {
        return None;
    }
    let f = &rec[0];
    assert(bytes_view(rec@)[0] == f@);
    if spells_word(f, Word::Rows) {
        Some(Section::Rows)
    } else if spells_word(f, Word::Columns) {
        Some(Section::Columns)
    } else if spells_word(f, Word::Rhs) {
        Some(Section::Rhs)
    } else if spells_word(f, Word::Bounds) {
        Some(Section::Bounds)
    } else if spells_word(f, Word::Ranges) {
        Some(Section::Ranges)
    } else if spells_word(f, Word::Endata) {
        Some(Section::End)
    } else {
        None
    }
}

fn row_kind_of(f: &Vec<u8>) -> (r: Option<RowKind>)
    ensures
        r == row_kind(f@),
{
    if f.len() == 0 {
        return None;
    }
    let c = upper_byte(f[0]);
    if c == 78 {
        Some(RowKind::Objective)
    } else if c == 76 {
        Some(RowKind::Leq)
    } else if c == 71 {
        Some(RowKind::Geq)
    } else if c == 69 {
        Some(RowKind::Eq)
    } else {
        None
    }
}

fn bound_code_of(f: &Vec<u8>) -> (r: Option<BoundCode>)
    ensures
        r == bound_code(f@),
{
    if spells_word(f, Word::Up) {
        Some(BoundCode::Up)
    } else if spells_word(f, Word::Lo) {
        Some(BoundCode::Lo)
    } else if spells_word(f, Word::Fx) {
        Some(BoundCode::Fx)
    } else if spells_word(f, Word::Fr) {
        Some(BoundCode::Fr)
    } else if spells_word(f, Word::Mi) {
        Some(BoundCode::Mi)
    } else if spells_word(f, Word::Bv) {
        Some(BoundCode::Bv)
    } else {
        None
    }
}

fn copy_bytes(v: &Vec<u8>) -> (r: Vec<u8>)
    ensures
        r@ == v@,
{
    let mut r: Vec<u8> = Vec::new();
    let mut k: usize = 0;
    while k < v.len()
        invariant
            k <= v@.len(),
            r@ == v@.subrange(0, k as int),
        decreases v@.len() - k,
    {
        r.push(v[k]);
        k = k + 1;
        assert(r@ =~= v@.subrange(0, k as int));
    }
    assert(r@ =~= v@);
    r
}

impl MpsDocument {
    /// Adds what line `rec` of section `sec` says.
    fn apply_line(&mut self, sec: Section, rec: &Vec<Vec<u8>>)
        ensures
            final(self).view() == apply(sec, old(self).view(), bytes_view(rec@)),
    {
        let ghost rv = bytes_view(rec@);
        let ghost d0 = self.view();
        match sec {
            Section::Rows => {
                if rec.len() >= 2 {
                    match row_kind_of(&rec[0]) {
                        Some(kind) => {
                            assert(rv[0] == rec@[0]@ && rv[1] == rec@[1]@);
                            let name = copy_bytes(&rec[1]);
                            self.rows.push(MpsRow { name, kind });
                            assert(self.view().rows =~= d0.rows.push((rv[1], kind)));
                        },
                        None => {
                            assert(rv[0] == rec@[0]@);
                        },
                    }
                }
            },
            Section::Columns => {
                if rec.len() >= 3 {
                    let len = rec.len();
                    let pairs = (len - 1) / 2;
                    let mut p: usize = 0;
                    while p < pairs
                        invariant
                            rv == bytes_view(rec@),
                            rec@.len() >= 3,
                            len == rec@.len(),
                            pairs == (rec@.len() - 1) / 2,
                            2 * pairs + 1 <= len,
                            p <= pairs,
                            self.view().rows == d0.rows,
                            self.view().rhs == d0.rhs,
                            self.view().bounds == d0.bounds,
                            self.view().entries == d0.entries + column_pairs(rv).take(p as int),
                        decreases pairs - p,
                    {
                        let ghost before = self.view();
                        let column = copy_bytes(&rec[0]);
                        let row = copy_bytes(&rec[1 + 2 * p]);
                        let value = copy_bytes(&rec[2 + 2 * p]);
                        self.entries.push(MpsEntry { column, row, value });
                        proof {
                            let cp = column_pairs(rv);
                            assert(cp[p as int] == (rv[0], rv[1 + 2 * p], rv[2 + 2 * p]));
                            assert(self.view().entries =~= before.entries.push(cp[p as int]));
                            assert(cp.take(p as int + 1) =~= cp.take(p as int).push(cp[p as int]));
                            assert(self.view().entries =~= d0.entries + cp.take(p as int + 1));
                            assert(self.view().rows =~= d0.rows);
                            assert(self.view().rhs =~= d0.rhs);
                            assert(self.view().bounds =~= d0.bounds);
                        }
                        p = p + 1;
                    }
                    assert(column_pairs(rv).take(pairs as int) =~= column_pairs(rv));
                } else {
                    assert(d0.entries + column_pairs(rv) =~= d0.entries);
                }
                assert(self.view() == apply(sec, d0, rv));
            },
            Section::Rhs => {
                let st: usize = if rec.len() % 2 == 1 {
                    1
                } else {
                    0
                };
                let len = rec.len();
                let pairs = (len - st) / 2;
                let mut p: usize = 0;
                while p < pairs
                    invariant
                        rv == bytes_view(rec@),
                        st == rhs_start(rv),
                        st <= 1,
                        len == rec@.len(),
                        pairs == (rec@.len() - st) / 2,
                        st + 2 * pairs <= len,
                        p <= pairs,
                        self.view().rows == d0.rows,
                        self.view().entries == d0.entries,
                        self.view().bounds == d0.bounds,
                        self.view().rhs == d0.rhs + rhs_pairs(rv).take(p as int),
                    decreases pairs - p,
                {
                    let ghost before = self.view();
                    let row = copy_bytes(&rec[st + 2 * p]);
                    let value = copy_bytes(&rec[st + 2 * p + 1]);
                    self.rhs.push(MpsRhs { row, value });
                    proof {
                        let hp = rhs_pairs(rv);
                        assert(hp[p as int] == (rv[st + 2 * p], rv[st + 2 * p + 1]));
                        assert(self.view().rhs =~= before.rhs.push(hp[p as int]));
                        assert(hp.take(p as int + 1) =~= hp.take(p as int).push(hp[p as int]));
                        assert(self.view().rhs =~= d0.rhs + hp.take(p as int + 1));
                        assert(self.view().rows =~= d0.rows);
                        assert(self.view().entries =~= d0.entries);
                        assert(self.view().bounds =~= d0.bounds);
                    }
                    p = p + 1;
                }
                assert(rhs_pairs(rv).take(pairs as int) =~= rhs_pairs(rv));
                assert(self.view() == apply(sec, d0, rv));
            },
            Section::Bounds => {
                if rec.len() >= 3 {
                    assert(rv[0] == rec@[0]@ && rv[2] == rec@[2]@);
                    match bound_code_of(&rec[0]) {
                        Some(code) => {
                            let column = copy_bytes(&rec[2]);
                            let value = if rec.len() >= 4 {
                                assert(rv[3] == rec@[3]@);
                                Some(copy_bytes(&rec[3]))
                            } else {
                                None
                            };
                            self.bounds.push(MpsBound { code, column, value });
                            assert(self.view().bounds =~= d0.bounds.push(
                                (code, rv[2], if rv.len() >= 4 { Some(rv[3]) } else { None }),
                            ));
                        },
                        None => {},
                    }
                }
            },
            _ => {},
        }
    }
}

/// Reads the structure of an MPS file: its rows, matrix entries,
/// right-hand sides and bounds, each in the order written, with names and
/// numbers as the bytes that spell them.
pub fn read_mps(text: &[u8]) -> (doc: MpsDocument)
    ensures
        doc.view() == read_spec(text@),
{
    let n = text.len();
    let mut doc = MpsDocument { rows: Vec::new(), entries: Vec::new(), rhs: Vec::new(), bounds: Vec::new() };
    let mut sec = Section::Start;
    let ghost mut seen: Seq<Seq<Seq<u8>>> = Seq::empty();
    let mut i: usize = 0;
    assert(doc.view().rows =~= empty_view().rows);
    assert(doc.view().entries =~= empty_view().entries);
    assert(doc.view().rhs =~= empty_view().rhs);
    assert(doc.view().bounds =~= empty_view().bounds);
    assert(seen + records_from(text@, 0) =~= records(text@));
    while i < n
        invariant
            n == text@.len(),
            i <= n,
            seen + records_from(text@, i as int) == records(text@),
            (sec, doc.view()) == read_records(seen),
        decreases n - i,
    {
        let (rec, e) = split_fields(text, i);
        let ghost rv = bytes_view(rec@);
        proof {
            lemma_line_end_bounds(text@, i as int);
            let rest = records_from(text@, i as int);
            assert(rest[0] == rv);
            if e < n {
                assert(rest =~= seq![rv] + records_from(text@, e as int + 1));
            } else {
                assert(rest =~= seq![rv]);
            }
        }
        let ghost state0 = (sec, doc.view());
        if sec != Section::End && rec.len() > 0 && !(rec[0].len() > 0 && rec[0][0] == 42) {
            assert(rv[0] == rec@[0]@);
            match header_of(&rec) {
                Some(h) => {
                    sec = h;
                },
                None => {
                    doc.apply_line(sec, &rec);
                },
            }
        } else {
            proof {
                if rec@.len() > 0 {
                    assert(rv[0] == rec@[0]@);
                }
            }
        }
        proof {
            assert((sec, doc.view()) == step(state0, rv));
            let seen2 = seen.push(rv);
            assert(seen2.drop_last() =~= seen);
            assert(read_records(seen2) == step(read_records(seen), rv));
            if e < n {
                assert(seen2 + records_from(text@, e as int + 1) =~= seen + records_from(text@, i as int));
            } else {
                assert(seen2 =~= seen + records_from(text@, i as int));
                assert(seen2 + records_from(text@, n as int) =~= seen2);
            }
            seen = seen2;
        }
        if e < n {
            i = e + 1;
        } else {
            i = n;
        }
    }
    assert(seen =~= records(text@));
    doc
}

/// `names` without repeats, each kept where it first appears.
pub open spec fn first_appearances(names: Seq<Seq<u8>>) -> Seq<Seq<u8>>
    decreases names.len(),
{
    if names.len() == 0 {
        Seq::empty()
    } else {
        let d = first_appearances(names.drop_last());
        if d.contains(names.last()) {
            d
        } else {
            d.push(names.last())
        }
    }
}

/// The first index from `i` on where `x` stands in `d`, or `d.len()`.
pub open spec fn position_from(d: Seq<Seq<u8>>, x: Seq<u8>, i: int) -> int
    decreases d.len() - i,
{
    if i < 0 || i >= d.len() {
        d.len() as int
    } else if d[i] == x {
        i
    } else {
        position_from(d, x, i + 1)
    }
}

/// Where `x` stands in `d`, or `d.len()`.
pub open spec fn position(d: Seq<Seq<u8>>, x: Seq<u8>) -> int {
    position_from(d, x, 0)
}

/// The columns named by a file, entries first, then bounds: variable `j`
/// of the model is the `j`-th of them in order of first appearance.
pub open spec fn column_names(v: MpsView) -> Seq<Seq<u8>> {
    first_appearances(
        v.entries.map_values(|e: (Seq<u8>, Seq<u8>, Seq<u8>)| e.0) + v.bounds.map_values(
            |b: (BoundCode, Seq<u8>, Option<Seq<u8>>)| b.1,
        ),
    )
}

/// The terms `(variable, value)` of row `row`, in the order of the entries.
pub open spec fn row_terms(entries: Seq<(Seq<u8>, Seq<u8>, Seq<u8>)>, row: Seq<u8>, cols: Seq<Seq<u8>>) -> Seq<
    (nat, Seq<u8>),
>
    decreases entries.len(),
{
    if entries.len() == 0 {
        Seq::empty()
    } else {
        let ts = row_terms(entries.drop_last(), row, cols);
        let e = entries.last();
        if e.1 == row {
            ts.push((position(cols, e.0) as nat, e.2))
        } else {
            ts
        }
    }
}

/// The right-hand side given last for row `row`, if any.
pub open spec fn rhs_of(rhs: Seq<(Seq<u8>, Seq<u8>)>, row: Seq<u8>) -> Option<Seq<u8>>
    decreases rhs.len(),
{
    if rhs.len() == 0 {
        None
    } else if rhs.last().0 == row {
        Some(rhs.last().1)
    } else {
        rhs_of(rhs.drop_last(), row)
    }
}

/// A constraint row: its kind, terms and right-hand side (zero if none).
pub open spec fn constraint_rows(v: MpsView, rows: Seq<(Seq<u8>, RowKind)>) -> Seq<
    (RowKind, Seq<(nat, Seq<u8>)>, Option<Seq<u8>>),
>
    decreases rows.len(),
{
    if rows.len() == 0 {
        Seq::empty()
    } else {
        let cs = constraint_rows(v, rows.drop_last());
        let r = rows.last();
        if r.1 is Objective {
            cs
        } else {
            cs.push((r.1, row_terms(v.entries, r.0, column_names(v)), rhs_of(v.rhs, r.0)))
        }
    }
}

/// The name of the first objective row among `rows`.
pub open spec fn objective_row(rows: Seq<(Seq<u8>, RowKind)>) -> Option<Seq<u8>>
    decreases rows.len(),
{
    if rows.len() == 0 {
        None
    } else {
        match objective_row(rows.drop_last()) {
            Some(n) => Some(n),
            None => if rows.last().1 is Objective {
                Some(rows.last().0)
            } else {
                None
            },
        }
    }
}

/// The model that a file describes, with numbers as text.
pub struct MpsModelView {
    pub columns: Seq<Seq<u8>>,
    pub objective: Option<(Seq<u8>, Seq<(nat, Seq<u8>)>)>,
    pub constraints: Seq<(RowKind, Seq<(nat, Seq<u8>)>, Option<Seq<u8>>)>,
    pub bounds: Seq<(BoundCode, nat, Option<Seq<u8>>)>,
}

/// The model of `v`: variables numbered by first appearance, the first `N`
/// row as objective (other `N` rows are dropped), the other rows as
/// constraints in order of declaration, each with the entries of its row
/// and its last right-hand side, and the bounds by variable.
pub open spec fn model_of(v: MpsView) -> MpsModelView {
    let cols = column_names(v);
    MpsModelView {
        columns: cols,
        objective: match objective_row(v.rows) {
            Some(n) => Some((n, row_terms(v.entries, n, cols))),
            None => None,
        },
        constraints: constraint_rows(v, v.rows),
        bounds: v.bounds.map_values(
            |b: (BoundCode, Seq<u8>, Option<Seq<u8>>)| (b.0, position(cols, b.1) as nat, b.2),
        ),
    }
}

/// The bytes of an optional byte string.
pub open spec fn opt_bytes(o: Option<Vec<u8>>) -> Option<Seq<u8>> {
    match o {
        Some(v) => Some(v@),
        None => None,
    }
}

/// `value * x_var`, the value as written.
#[derive(Debug, Clone)]
pub struct MpsTerm {
    pub var: usize,
    pub value: Vec<u8>,
}

/// The objective: its row name and terms.
#[derive(Debug, Clone)]
pub struct MpsObjective {
    pub name: Vec<u8>,
    pub terms: Vec<MpsTerm>,
}

/// A constraint: `terms kind rhs`, with no right-hand side meaning zero.
#[derive(Debug, Clone)]
pub struct MpsConstraint {
    pub kind: RowKind,
    pub terms: Vec<MpsTerm>,
    pub rhs: Option<Vec<u8>>,
}

/// A bound on variable `var`.
#[derive(Debug, Clone)]
pub struct MpsVarBound {
    pub code: BoundCode,
    pub var: usize,
    pub value: Option<Vec<u8>>,
}

/// The model of an MPS file, with numbers as text.
#[derive(Debug, Clone)]
pub struct MpsModel {
    /// Variable `j` is the column named `columns[j]`.
    pub columns: Vec<Vec<u8>>,
    pub objective: Option<MpsObjective>,
    pub constraints: Vec<MpsConstraint>,
    pub bounds: Vec<MpsVarBound>,
}

pub open spec fn mps_terms_view(ts: Seq<MpsTerm>) -> Seq<(nat, Seq<u8>)> {
    ts.map_values(|t: MpsTerm| (t.var as nat, t.value@))
}

impl MpsModel {
    pub open spec fn view(&self) -> MpsModelView {
        MpsModelView {
            columns: bytes_view(self.columns@),
            objective: match self.objective {
                Some(o) => Some((o.name@, mps_terms_view(o.terms@))),
                None => None,
            },
            constraints: self.constraints@.map_values(
                |c: MpsConstraint| (c.kind, mps_terms_view(c.terms@), opt_bytes(c.rhs)),
            ),
            bounds: self.bounds@.map_values(|b: MpsVarBound| (b.code, b.var as nat, opt_bytes(b.value))),
        }
    }
}

/// Whether two byte strings are equal.
fn same_bytes(a: &Vec<u8>, b: &Vec<u8>) -> (r: bool)
    ensures
        r == (a@ == b@),
{
    if a.len() != b.len() {
        return false;
    }
    let mut k: usize = 0;
    while k < a.len()
        invariant
            a@.len() == b@.len(),
            k <= a@.len(),
            forall|q: int| 0 <= q < k ==> a@[q] == b@[q],
        decreases a@.len() - k,
    {
        if a[k] != b[k] {
            return false;
        }
        k = k + 1;
    }
    assert(a@ =~= b@);
    true
}

proof fn lemma_position_bounds(d: Seq<Seq<u8>>, x: Seq<u8>, i: int)
    requires
        0 <= i <= d.len(),
    ensures
        i <= position_from(d, x, i) <= d.len(),
        position_from(d, x, i) < d.len() ==> d[position_from(d, x, i)] == x,
        forall|q: int| i <= q < position_from(d, x, i) ==> d[q] != x,
    decreases d.len() - i,
{
    if i < d.len() && d[i] != x {
        lemma_position_bounds(d, x, i + 1);
    }
}

/// Where `x` stands in `d`, or `d.len()`.
fn position_of(d: &Vec<Vec<u8>>, x: &Vec<u8>) -> (k: usize)
    ensures
        k == position(bytes_view(d@), x@),
        k < d@.len() <==> bytes_view(d@).contains(x@),
{
    let ghost dv = bytes_view(d@);
    let mut k: usize = 0;
    while k < d.len()
        invariant
            dv == bytes_view(d@),
            k <= d@.len(),
            position(dv, x@) == position_from(dv, x@, k as int),
            forall|q: int| 0 <= q < k ==> dv[q] != x@,
        decreases d@.len() - k,
    {
        assert(dv[k as int] == d@[k as int]@);
        if same_bytes(&d[k], x) {
            return k;
        }
        k = k + 1;
    }
    k
}

/// `first_appearances` grows by the name at `k` when it is new.
proof fn lemma_first_appearances_step(names: Seq<Seq<u8>>, k: int)
    requires
        0 <= k < names.len(),
    ensures
        first_appearances(names.take(k + 1)) == if first_appearances(names.take(k)).contains(names[k]) {
            first_appearances(names.take(k))
        } else {
            first_appearances(names.take(k)).push(names[k])
        },
{
    assert(names.take(k + 1).drop_last() =~= names.take(k));
}

/// Adds `name` to `cols` unless it is there already.
fn note_column(cols: &mut Vec<Vec<u8>>, name: &Vec<u8>)
    ensures
        bytes_view(final(cols)@) == if bytes_view(old(cols)@).contains(name@) {
            bytes_view(old(cols)@)
        } else {
            bytes_view(old(cols)@).push(name@)
        },
{
    let k = position_of(cols, name);
    if k >= cols.len() {
        let ghost before = bytes_view(cols@);
        cols.push(copy_bytes(name));
        assert(bytes_view(cols@) =~= before.push(name@));
    }
}

/// The column names of a document in order of first appearance.
fn columns_of(doc: &MpsDocument) -> (r: Vec<Vec<u8>>)
    ensures
        bytes_view(r@) == column_names(doc.view()),
{
    let ghost v = doc.view();
    let ghost ecols = v.entries.map_values(|e: (Seq<u8>, Seq<u8>, Seq<u8>)| e.0);
    let ghost bcols = v.bounds.map_values(|b: (BoundCode, Seq<u8>, Option<Seq<u8>>)| b.1);
    let ghost names = ecols + bcols;
    let mut cols: Vec<Vec<u8>> = Vec::new();
    let mut k: usize = 0;
    assert(names.take(0) =~= Seq::<Seq<u8>>::empty());
    assert(bytes_view(cols@) =~= Seq::<Seq<u8>>::empty());
    while k < doc.entries.len()
        invariant
            v == doc.view(),
            names == ecols + bcols,
            ecols == v.entries.map_values(|e: (Seq<u8>, Seq<u8>, Seq<u8>)| e.0),
            k <= doc.entries@.len(),
            bytes_view(cols@) == first_appearances(names.take(k as int)),
        decreases doc.entries@.len() - k,
    {
        proof {
            lemma_first_appearances_step(names, k as int);
            assert(names[k as int] == doc.entries@[k as int].column@);
        }
        note_column(&mut cols, &doc.entries[k].column);
        k = k + 1;
    }
    let ne = doc.entries.len();
    let mut q: usize = 0;
    while q < doc.bounds.len()
        invariant
            v == doc.view(),
            names == ecols + bcols,
            ecols.len() == ne,
            ne == doc.entries@.len(),
            bcols == v.bounds.map_values(|b: (BoundCode, Seq<u8>, Option<Seq<u8>>)| b.1),
            q <= doc.bounds@.len(),
            bytes_view(cols@) == first_appearances(names.take(ne + q)),
        decreases doc.bounds@.len() - q,
    {
        proof {
            lemma_first_appearances_step(names, ne + q);
            assert(names[ne + q] == doc.bounds@[q as int].column@);
        }
        note_column(&mut cols, &doc.bounds[q].column);
        q = q + 1;
    }
    assert(names.take(ne + q) =~= names);
    cols
}

/// The terms of row `row`.
fn terms_of_row(doc: &MpsDocument, row: &Vec<u8>, cols: &Vec<Vec<u8>>) -> (r: Vec<MpsTerm>)
    ensures
        mps_terms_view(r@) == row_terms(doc.view().entries, row@, bytes_view(cols@)),
{
    let ghost es = doc.view().entries;
    let mut ts: Vec<MpsTerm> = Vec::new();
    let mut k: usize = 0;
    assert(es.take(0) =~= Seq::<(Seq<u8>, Seq<u8>, Seq<u8>)>::empty());
    assert(mps_terms_view(ts@) =~= Seq::<(nat, Seq<u8>)>::empty());
    while k < doc.entries.len()
        invariant
            es == doc.view().entries,
            k <= doc.entries@.len(),
            mps_terms_view(ts@) == row_terms(es.take(k as int), row@, bytes_view(cols@)),
        decreases doc.entries@.len() - k,
    {
        proof {
            assert(es.take(k as int + 1).drop_last() =~= es.take(k as int));
            assert(es.take(k as int + 1).last() == es[k as int]);
        }
        let e = &doc.entries[k];
        if same_bytes(&e.row, row) {
            let var = position_of(cols, &e.column);
            let ghost before = mps_terms_view(ts@);
            let t = MpsTerm { var, value: copy_bytes(&e.value) };
            ts.push(t);
            assert(mps_terms_view(ts@) =~= before.push((var as nat, e.value@)));
        }
        k = k + 1;
    }
    assert(es.take(doc.entries@.len() as int) =~= es);
    ts
}

/// The right-hand side given last for row `row`.
fn rhs_for(doc: &MpsDocument, row: &Vec<u8>) -> (r: Option<Vec<u8>>)
    ensures
        opt_bytes(r) == rhs_of(doc.view().rhs, row@),
{
    let ghost hs = doc.view().rhs;
    let mut k: usize = doc.rhs.len();
    assert(hs.take(k as int) =~= hs);
    while k > 0
        invariant
            hs == doc.view().rhs,
            k <= doc.rhs@.len(),
            rhs_of(hs, row@) == rhs_of(hs.take(k as int), row@),
        decreases k,
    {
        proof {
            assert(hs.take(k as int).last() == hs[k - 1]);
            assert(hs.take(k as int).drop_last() =~= hs.take(k - 1));
        }
        let h = &doc.rhs[k - 1];
        if same_bytes(&h.row, row) {
            return Some(copy_bytes(&h.value));
        }
        k = k - 1;
    }
    None
}

/// The model that an MPS document describes: variables numbered by first
/// appearance of their column (entries, then bounds), the first `N` row as
/// objective, the `L`, `G` and `E` rows as constraints in order with their
/// entries and last right-hand side, and the bounds by variable.
pub fn model_of_document(doc: &MpsDocument) -> (m: MpsModel)
    ensures
        m.view() == model_of(doc.view()),
{
    let ghost v = doc.view();
    let columns = columns_of(doc);
    let ghost cols = bytes_view(columns@);
    // The objective: the first N row.
    let mut objective: Option<MpsObjective> = None;
    let mut k: usize = 0;
    assert(v.rows.take(0) =~= Seq::<(Seq<u8>, RowKind)>::empty());
    while k < doc.rows.len()
        invariant
            v == doc.view(),
            cols == bytes_view(columns@),
            cols == column_names(v),
            k <= doc.rows@.len(),
            match objective_row(v.rows.take(k as int)) {
                Some(n) => objective is Some && objective.unwrap().name@ == n && mps_terms_view(
                    objective.unwrap().terms@,
                ) == row_terms(v.entries, n, cols),
                None => objective is None,
            },
        decreases doc.rows@.len() - k,
    {
        proof {
            assert(v.rows.take(k as int + 1).drop_last() =~= v.rows.take(k as int));
            assert(v.rows.take(k as int + 1).last() == v.rows[k as int]);
        }
        if objective.is_none() && matches!(doc.rows[k].kind, RowKind::Objective) {
            let name = copy_bytes(&doc.rows[k].name);
            let terms = terms_of_row(doc, &doc.rows[k].name, &columns);
            objective = Some(MpsObjective { name, terms });
        }
        k = k + 1;
    }
    assert(v.rows.take(doc.rows@.len() as int) =~= v.rows);
    // The constraints: every other row, in order.
    let mut constraints: Vec<MpsConstraint> = Vec::new();
    let ghost cview = |c: MpsConstraint| (c.kind, mps_terms_view(c.terms@), opt_bytes(c.rhs));
    k = 0;
    assert(constraints@.map_values(cview) =~= constraint_rows(v, v.rows.take(0)));
    while k < doc.rows.len()
        invariant
            v == doc.view(),
            cols == bytes_view(columns@),
            cols == column_names(v),
            k <= doc.rows@.len(),
            cview == (|c: MpsConstraint| (c.kind, mps_terms_view(c.terms@), opt_bytes(c.rhs))),
            constraints@.map_values(cview) == constraint_rows(v, v.rows.take(k as int)),
        decreases doc.rows@.len() - k,
    {
        proof {
            assert(v.rows.take(k as int + 1).drop_last() =~= v.rows.take(k as int));
            assert(v.rows.take(k as int + 1).last() == v.rows[k as int]);
        }
        let row = &doc.rows[k];
        if !matches!(row.kind, RowKind::Objective) {
            let terms = terms_of_row(doc, &row.name, &columns);
            let rhs = rhs_for(doc, &row.name);
            let c = MpsConstraint { kind: row.kind, terms, rhs };
            let ghost before = constraints@.map_values(cview);
            constraints.push(c);
            assert(constraints@.map_values(cview) =~= before.push(cview(c)));
        }
        k = k + 1;
    }
    // The bounds, by variable.
    let mut bounds: Vec<MpsVarBound> = Vec::new();
    let ghost bview = |b: MpsVarBound| (b.code, b.var as nat, opt_bytes(b.value));
    let ghost target = v.bounds.map_values(
        |b: (BoundCode, Seq<u8>, Option<Seq<u8>>)| (b.0, position(cols, b.1) as nat, b.2),
    );
    k = 0;
    while k < doc.bounds.len()
        invariant
            v == doc.view(),
            cols == bytes_view(columns@),
            k <= doc.bounds@.len(),
            bview == (|b: MpsVarBound| (b.code, b.var as nat, opt_bytes(b.value))),
            target == v.bounds.map_values(
                |b: (BoundCode, Seq<u8>, Option<Seq<u8>>)| (b.0, position(cols, b.1) as nat, b.2),
            ),
            bounds@.map_values(bview) == target.take(k as int),
        decreases doc.bounds@.len() - k,
    {
        let b = &doc.bounds[k];
        let var = position_of(&columns, &b.column);
        let value = match &b.value {
            Some(x) => Some(copy_bytes(x)),
            None => None,
        };
        let nb = MpsVarBound { code: b.code, var, value };
        let ghost before = bounds@.map_values(bview);
        bounds.push(nb);
        assert(bounds@.map_values(bview) =~= before.push(bview(nb)));
        assert(target.take(k as int + 1) =~= target.take(k as int).push(target[k as int]));
        k = k + 1;
    }
    assert(target.take(doc.bounds@.len() as int) =~= target);
    assert(constraint_rows(v, v.rows.take(doc.rows@.len() as int)) == constraint_rows(v, v.rows));
    let m = MpsModel { columns, objective, constraints, bounds };
    assert(m.view().constraints =~= model_of(v).constraints);
    assert(m.view().bounds =~= model_of(v).bounds);
    m
}

} // verus!
