//! Reading the frames of a trajectory from the text of a dump file.
use vstd::prelude::*;
use crate::error::VacfError;
use crate::lexer::{lines_of, words_of, span, spans_are, spans_within, split_lines, split_words};
use crate::numbers::{Decimal, i32_token, usize_token, decimal_token, parse_i32, parse_usize, parse_decimal};

verus! {

/// The type column of one atom record.
#[derive(Debug, Clone, PartialEq)]
pub enum AtomType {
    Integer(i32),
    Mass(Decimal),
    /// An element or species label, as the bytes of the field.
    Element(Vec<u8>),
}

/// How the type column of an atom table is read, chosen by its header.
#[derive(Debug, Clone, Copy, PartialEq, Eq, Structural)]
pub enum TypeColumn {
    Integer,
    Mass,
    Element,
}

/// One particle at one timestep.
#[derive(Debug, Clone)]
pub struct Atom {
    pub id: i32,
    pub atom_type: AtomType,
    pub x: Decimal,
    pub y: Decimal,
    pub z: Decimal,
    pub vx: Decimal,
    pub vy: Decimal,
    pub vz: Decimal,
}

/// One timestep of a trajectory.
#[derive(Debug)]
pub struct Frame {
    pub timestep: i32,
    pub num_atoms: usize,
    pub atoms: Vec<Atom>,
}

pub enum AtomTypeView {
    Integer(i32),
    Mass(Decimal),
    Element(Seq<u8>),
}

pub struct AtomView {
    pub id: i32,
    pub atom_type: AtomTypeView,
    pub x: Decimal,
    pub y: Decimal,
    pub z: Decimal,
    pub vx: Decimal,
    pub vy: Decimal,
    pub vz: Decimal,
}

pub struct FrameView {
    pub timestep: i32,
    pub num_atoms: usize,
    pub atoms: Seq<AtomView>,
}

impl View for AtomType {
    type V = AtomTypeView;

    open spec fn view(&self) -> AtomTypeView {
        match self {
            AtomType::Integer(i) => AtomTypeView::Integer(*i),
            AtomType::Mass(m) => AtomTypeView::Mass(*m),
            AtomType::Element(e) => AtomTypeView::Element(e@),
        }
    }
}

impl View for Atom {
    type V = AtomView;

    open spec fn view(&self) -> AtomView {
        AtomView {
            id: self.id,
            atom_type: self.atom_type@,
            x: self.x,
            y: self.y,
            z: self.z,
            vx: self.vx,
            vy: self.vy,
            vz: self.vz,
        }
    }
}

impl View for Frame {
    type V = FrameView;

    open spec fn view(&self) -> FrameView {
        FrameView {
            timestep: self.timestep,
            num_atoms: self.num_atoms,
            atoms: self.atoms@.map_values(|a: Atom| a@),
        }
    }
}

pub open spec fn frames_view(frames: Seq<Frame>) -> Seq<FrameView> {
    frames.map_values(|f: Frame| f@)
}

pub open spec fn word_item() -> Seq<u8> {
    seq![73u8, 84, 69, 77, 58]
}

pub open spec fn word_timestep() -> Seq<u8> {
    seq![84u8, 73, 77, 69, 83, 84, 69, 80]
}

pub open spec fn word_number() -> Seq<u8> {
    seq![78u8, 85, 77, 66, 69, 82]
}

pub open spec fn word_of() -> Seq<u8> {
    seq![79u8, 70]
}

pub open spec fn word_atoms() -> Seq<u8> {
    seq![65u8, 84, 79, 77, 83]
}

pub open spec fn word_type() -> Seq<u8> {
    seq![116u8, 121, 112, 101]
}

pub open spec fn word_mass() -> Seq<u8> {
    seq![109u8, 97, 115, 115]
}

/// `ITEM: TIMESTEP`
pub open spec fn is_timestep_marker(w: Seq<Seq<u8>>) -> bool {
    w.len() >= 2 && w[0] == word_item() && w[1] == word_timestep()
}

/// `ITEM: NUMBER OF ATOMS`
pub open spec fn is_count_marker(w: Seq<Seq<u8>>) -> bool {
    w.len() >= 4 && w[0] == word_item() && w[1] == word_number() && w[2] == word_of() && w[3]
        == word_atoms()
}

/// `ITEM: ATOMS ...`
pub open spec fn is_table_marker(w: Seq<Seq<u8>>) -> bool {
    w.len() >= 2 && w[0] == word_item() && w[1] == word_atoms()
}

/// The reading of the type column that a label selects.
pub open spec fn column_of(label: Seq<u8>) -> TypeColumn {
    if label == word_type() {
        TypeColumn::Integer
    } else if label == word_mass() {
        TypeColumn::Mass
    } else {
        TypeColumn::Element
    }
}

pub open spec fn type_field(t: Seq<u8>, c: TypeColumn) -> Option<AtomTypeView> {
    match c {
        TypeColumn::Integer => match i32_token(t) {
            Some(i) => Some(AtomTypeView::Integer(i)),
            None => None,
        },
        TypeColumn::Mass => match decimal_token(t) {
            Some(m) => Some(AtomTypeView::Mass(m)),
            None => None,
        },
        TypeColumn::Element => Some(AtomTypeView::Element(t)),
    }
}

/// The atom that the words of a data line `id type x y z vx vy vz` describe.
pub open spec fn atom_of(w: Seq<Seq<u8>>, c: TypeColumn) -> Option<AtomView> {
    if w.len() == 8 && i32_token(w[0]) is Some && type_field(w[1], c) is Some && decimal_token(
        w[2],
    ) is Some && decimal_token(w[3]) is Some && decimal_token(w[4]) is Some && decimal_token(w[5]) is Some
        && decimal_token(w[6]) is Some && decimal_token(w[7]) is Some {
        Some(
            AtomView {
                id: i32_token(w[0]).unwrap(),
                atom_type: type_field(w[1], c).unwrap(),
                x: decimal_token(w[2]).unwrap(),
                y: decimal_token(w[3]).unwrap(),
                z: decimal_token(w[4]).unwrap(),
                vx: decimal_token(w[5]).unwrap(),
                vy: decimal_token(w[6]).unwrap(),
                vz: decimal_token(w[7]).unwrap(),
            },
        )
    } else {
        None
    }
}

/// A one-word line read as an `i32` or a `usize`.
pub open spec fn i32_line(l: Seq<u8>) -> Option<i32> {
    if words_of(l).len() == 1 { i32_token(words_of(l)[0]) } else { None }
}

pub open spec fn usize_line(l: Seq<u8>) -> Option<usize> {
    if words_of(l).len() == 1 { usize_token(words_of(l)[0]) } else { None }
}

pub open spec fn prepend<T>(p: Seq<T>, r: Result<Seq<T>, VacfError>) -> Result<Seq<T>, VacfError> {
    match r {
        Ok(s) => Ok(p + s),
        Err(e) => Err(e),
    }
}

/// The atoms of a table whose data lines start at line `i`, from the `k`-th
/// of `n` on.
pub open spec fn table_from(ls: Seq<Seq<u8>>, i: int, k: int, n: int, c: TypeColumn) -> Result<Seq<AtomView>, VacfError>
    decreases n - k,
{
    if k >= n {
        Ok(Seq::empty())
    } else if i + k >= ls.len() {
        Err(VacfError::UnexpectedEof)
    } else {
        match atom_of(words_of(ls[i + k]), c) {
            None => Err(VacfError::MalformedAtomRecord { line: (i + k + 1) as usize }),
            Some(a) => prepend(seq![a], table_from(ls, i, k + 1, n, c)),
        }
    }
}

/// The frames that the lines `ls[i..]` add to `done`, where `cur` holds the
/// timestep and atom count of a block that has not reached its table yet.
pub open spec fn frames_from(ls: Seq<Seq<u8>>, i: int, cur: Option<(i32, usize)>, done: Seq<FrameView>) -> Result<Seq<FrameView>, VacfError>
    decreases if i < ls.len() { ls.len() - i } else { 0 },
{
    if i >= ls.len() || i < 0 {
        if cur is Some { Err(VacfError::UnexpectedEof) } else { Ok(done) }
    } else {
        let w = words_of(ls[i]);
        if is_timestep_marker(w) {
            if i + 1 >= ls.len() {
                Err(VacfError::UnexpectedEof)
            } else {
                match i32_line(ls[i + 1]) {
                    None => Err(VacfError::MalformedHeader { line: (i + 2) as usize }),
                    Some(ts) => frames_from(ls, i + 2, Some((ts, 0usize)), done),
                }
            }
        } else if is_count_marker(w) {
            if i + 1 >= ls.len() {
                Err(VacfError::UnexpectedEof)
            } else {
                match usize_line(ls[i + 1]) {
                    None => Err(VacfError::MalformedHeader { line: (i + 2) as usize }),
                    Some(n) => frames_from(
                        ls,
                        i + 2,
                        match cur {
                            Some(h) => Some((h.0, n)),
                            None => None,
                        },
                        done,
                    ),
                }
            }
        } else if is_table_marker(w) {
            if w.len() < 4 || cur is None {
                Err(VacfError::MalformedHeader { line: (i + 1) as usize })
            } else {
                let n = cur.unwrap().1;
                match table_from(ls, i + 1, 0, n as int, column_of(w[3])) {
                    Err(e) => Err(e),
                    Ok(atoms) => frames_from(
                        ls,
                        i + 1 + n,
                        None,
                        done.push(FrameView { timestep: cur.unwrap().0, num_atoms: n, atoms }),
                    ),
                }
            }
        } else {
            frames_from(ls, i + 1, cur, done)
        }
    }
}

/// What reading a whole dump text gives.
pub open spec fn dump_frames(text: Seq<u8>) -> Result<Seq<FrameView>, VacfError> {
    frames_from(lines_of(text), 0, None, Seq::empty())
}

/// Every frame holds as many atoms as it declares.
pub open spec fn frames_complete(fs: Seq<FrameView>) -> bool {
    forall|t: int| 0 <= t < fs.len() ==> (#[trigger] fs[t]).atoms.len() == fs[t].num_atoms
}

proof fn lemma_table_length(ls: Seq<Seq<u8>>, i: int, k: int, n: int, c: TypeColumn)
    requires
        k <= n,
        table_from(ls, i, k, n, c) is Ok,
    ensures
        table_from(ls, i, k, n, c).unwrap().len() == n - k,
    decreases n - k,
{
    if k < n {
        lemma_table_length(ls, i, k + 1, n, c);
    }
}

proof fn lemma_frames_from_complete(ls: Seq<Seq<u8>>, i: int, cur: Option<(i32, usize)>, done: Seq<FrameView>)
    requires
        frames_complete(done),
        frames_from(ls, i, cur, done) is Ok,
    ensures
        frames_complete(frames_from(ls, i, cur, done).unwrap()),
    decreases if i < ls.len() { ls.len() - i } else { 0 },
{
    if 0 <= i < ls.len() {
        let w = words_of(ls[i]);
        if is_timestep_marker(w) {
            if i + 1 < ls.len() {
                if let Some(ts) = i32_line(ls[i + 1]) {
                    lemma_frames_from_complete(ls, i + 2, Some((ts, 0usize)), done);
                }
            }
        } else if is_count_marker(w) {
            if i + 1 < ls.len() {
                if let Some(n) = usize_line(ls[i + 1]) {
                    lemma_frames_from_complete(
                        ls,
                        i + 2,
                        match cur {
                            Some(h) => Some((h.0, n)),
                            None => None,
                        },
                        done,
                    );
                }
            }
        } else if is_table_marker(w) {
            if !(w.len() < 4 || cur is None) {
                let n = cur.unwrap().1;
                let tr = table_from(ls, i + 1, 0, n as int, column_of(w[3]));
                if tr is Ok {
                    lemma_table_length(ls, i + 1, 0, n as int, column_of(w[3]));
                    let f = FrameView { timestep: cur.unwrap().0, num_atoms: n, atoms: tr.unwrap() };
                    let next = done.push(f);
                    assert(frames_complete(next)) by {
                        assert forall|t: int| 0 <= t < next.len() implies (#[trigger] next[t]).atoms.len()
                            == next[t].num_atoms by {
                            if t < done.len() {
                                assert(next[t] == done[t]);
                            }
                        }
                    }
                    lemma_frames_from_complete(ls, i + 1 + n, None, next);
                }
            }
        } else {
            lemma_frames_from_complete(ls, i + 1, cur, done);
        }
    }
}

/// Whatever text is read, every frame read holds exactly the number of atoms
/// that its block declares: a block whose table ends early is an error.
pub proof fn lemma_read_frames_complete(text: Seq<u8>)
    requires
        dump_frames(text) is Ok,
    ensures
        frames_complete(dump_frames(text).unwrap()),
{
    lemma_frames_from_complete(lines_of(text), 0, None, Seq::empty());
}

/// Whether the word at `w` of `text` is `word`.
fn word_is(text: &[u8], w: (usize, usize), word: &[u8]) -> (r: bool)
    requires
        w.0 <= w.1 <= text@.len(),
    ensures
        r == (span(text@, w) == word@),
{
    if w.1 - w.0 != word.len() {
        return false;
    }
    let mut k: usize = 0;
    while k < word.len()
        invariant
            w.0 <= w.1 <= text@.len(),
            w.1 - w.0 == word@.len(),
            0 <= k <= word@.len(),
            forall|j: int| 0 <= j < k ==> span(text@, w)[j] == word@[j],
        decreases word@.len() - k,
    {
        if text[w.0 + k] != word[k] {
            assert(span(text@, w)[k as int] != word@[k as int]);
            return false;
        }
        k = k + 1;
    }
    assert(span(text@, w) =~= word@);
    true
}

/// Whether the word at `w` is the keyword numbered `which`, in the order
/// `ITEM:`, `TIMESTEP`, `NUMBER`, `OF`, `ATOMS`, `type`, `mass`.
fn is_word(text: &[u8], w: (usize, usize), which: u8) -> (r: bool)
    requires
        w.0 <= w.1 <= text@.len(),
        which < 7,
    ensures
        r == (span(text@, w) == (if which == 0 {
            word_item()
        } else if which == 1 {
            word_timestep()
        } else if which == 2 {
            word_number()
        } else if which == 3 {
            word_of()
        } else if which == 4 {
            word_atoms()
        } else if which == 5 {
            word_type()
        } else {
            word_mass()
        })),
{
    if which == 0 {
        let lit: [u8; 5] = [73, 84, 69, 77, 58];
        assert(lit@ =~= word_item());
        word_is(text, w, &lit)
    } else if which == 1 {
        let lit: [u8; 8] = [84, 73, 77, 69, 83, 84, 69, 80];
        assert(lit@ =~= word_timestep());
        word_is(text, w, &lit)
    } else if which == 2 {
        let lit: [u8; 6] = [78, 85, 77, 66, 69, 82];
        assert(lit@ =~= word_number());
        word_is(text, w, &lit)
    } else if which == 3 {
        let lit: [u8; 2] = [79, 70];
        assert(lit@ =~= word_of());
        word_is(text, w, &lit)
    } else if which == 4 {
        let lit: [u8; 5] = [65, 84, 79, 77, 83];
        assert(lit@ =~= word_atoms());
        word_is(text, w, &lit)
    } else if which == 5 {
        let lit: [u8; 4] = [116, 121, 112, 101];
        assert(lit@ =~= word_type());
        word_is(text, w, &lit)
    } else {
        let lit: [u8; 4] = [109, 97, 115, 115];
        assert(lit@ =~= word_mass());
        word_is(text, w, &lit)
    }
}

/// The kinds of line that open a part of a block.
enum Marker {
    Timestep,
    Count,
    Table,
    Other,
}

/// Which marker the words `ws` of a line make.
fn marker_of(text: &[u8], ws: &Vec<(usize, usize)>, w: Ghost<Seq<Seq<u8>>>) -> (r: Marker)
    requires
        spans_are(text@, ws@, w@),
        spans_within(ws@, 0, text@.len() as int),
    ensures
        r is Timestep <==> is_timestep_marker(w@),
        r is Count <==> !is_timestep_marker(w@) && is_count_marker(w@),
        r is Table <==> !is_timestep_marker(w@) && !is_count_marker(w@) && is_table_marker(w@),
{
    if ws.len() < 2 || !is_word(text, ws[0], 0) {
        return Marker::Other;
    }
    if is_word(text, ws[1], 1) {
        Marker::Timestep
    } else if ws.len() >= 4 && is_word(text, ws[1], 2) && is_word(text, ws[2], 3) && is_word(
        text,
        ws[3],
        4,
    ) {
        Marker::Count
    } else if is_word(text, ws[1], 4) {
        assert(!is_count_marker(w@));
        Marker::Table
    } else {
        Marker::Other
    }
}

/// The reading of the type column that the header label at `w` selects.
pub fn determine_atom_type(text: &[u8], w: (usize, usize)) -> (r: TypeColumn)
    requires
        w.0 <= w.1 <= text@.len(),
    ensures
        r == column_of(span(text@, w)),
{
    if is_word(text, w, 5) {
        TypeColumn::Integer
    } else if is_word(text, w, 6) {
        TypeColumn::Mass
    } else {
        TypeColumn::Element
    }
}

/// Reads the type field at `w` as the column `c` says.
pub fn parse_atom_data(text: &[u8], w: (usize, usize), c: TypeColumn) -> (r: Option<AtomType>)
    requires
        w.0 <= w.1 <= text@.len(),
    ensures
        match r {
            Some(t) => type_field(span(text@, w), c) == Some(t@),
            None => type_field(span(text@, w), c) is None,
        },
{
    match c {
        TypeColumn::Integer => match parse_i32(text, w.0, w.1) {
            Some(i) => Some(AtomType::Integer(i)),
            None => None,
        },
        TypeColumn::Mass => match parse_decimal(text, w.0, w.1) {
            Some(m) => Some(AtomType::Mass(m)),
            None => None,
        },
        TypeColumn::Element => {
            let mut label: Vec<u8> = Vec::new();
            let mut k: usize = w.0;
            while k < w.1
                invariant
                    w.0 <= k <= w.1 <= text@.len(),
                    label@ =~= text@.subrange(w.0 as int, k as int),
                decreases w.1 - k,
            {
                label.push(text[k]);
                k = k + 1;
            }
            Some(AtomType::Element(label))
        },
    }
}

/// Reads a line that holds one integer.
fn read_i32_line(text: &[u8], l: (usize, usize)) -> (r: Option<i32>)
    requires
        l.0 <= l.1 <= text@.len(),
    ensures
        r == i32_line(span(text@, l)),
{
    let ws = split_words(text, l.0, l.1);
    if ws.len() != 1 {
        return None;
    }
    parse_i32(text, ws[0].0, ws[0].1)
}

/// Reads a line that holds one count.
fn read_usize_line(text: &[u8], l: (usize, usize)) -> (r: Option<usize>)
    requires
        l.0 <= l.1 <= text@.len(),
    ensures
        r == usize_line(span(text@, l)),
{
    let ws = split_words(text, l.0, l.1);
    if ws.len() != 1 {
        return None;
    }
    parse_usize(text, ws[0].0, ws[0].1)
}

/// Reads the atom of the data line at `l`.
fn read_atom(text: &[u8], l: (usize, usize), c: TypeColumn) -> (r: Option<Atom>)
    requires
        l.0 <= l.1 <= text@.len(),
    ensures
        match r {
            Some(a) => atom_of(words_of(span(text@, l)), c) == Some(a@),
            None => atom_of(words_of(span(text@, l)), c) is None,
        },
{
    let ws = split_words(text, l.0, l.1);
    if ws.len() != 8 {
        return None;
    }
    let id = match parse_i32(text, ws[0].0, ws[0].1) { Some(v) => v, None => { return None; } };
    let atom_type = match parse_atom_data(text, ws[1], c) { Some(v) => v, None => { return None; } };
    let x = match parse_decimal(text, ws[2].0, ws[2].1) { Some(v) => v, None => { return None; } };
    let y = match parse_decimal(text, ws[3].0, ws[3].1) { Some(v) => v, None => { return None; } };
    let z = match parse_decimal(text, ws[4].0, ws[4].1) { Some(v) => v, None => { return None; } };
    let vx = match parse_decimal(text, ws[5].0, ws[5].1) { Some(v) => v, None => { return None; } };
    let vy = match parse_decimal(text, ws[6].0, ws[6].1) { Some(v) => v, None => { return None; } };
    let vz = match parse_decimal(text, ws[7].0, ws[7].1) { Some(v) => v, None => { return None; } };
    Some(Atom { id, atom_type, x, y, z, vx, vy, vz })
}

/// Reads the `n` data lines of an atom table that start at line `i`.
fn read_table(text: &[u8], lines: &Vec<(usize, usize)>, ls: Ghost<Seq<Seq<u8>>>, i: usize, n: usize, c: TypeColumn) -> (r: Result<Vec<Atom>, VacfError>)
    requires
        spans_are(text@, lines@, ls@),
        spans_within(lines@, 0, text@.len() as int),
        i <= lines@.len(),
    ensures
        match r {
            Ok(atoms) => table_from(ls@, i as int, 0, n as int, c) == Ok::<Seq<AtomView>, VacfError>(
                atoms@.map_values(|a: Atom| a@),
            ) && i + n <= lines@.len() && atoms@.len() == n,
            Err(e) => table_from(ls@, i as int, 0, n as int, c) == Err::<Seq<AtomView>, _>(e),
        },
{
    let mut atoms: Vec<Atom> = Vec::new();
    let mut k: usize = 0;
    assert(atoms@.map_values(|a: Atom| a@) + Seq::<AtomView>::empty() =~= Seq::<AtomView>::empty());
    while k < n
        invariant
            spans_are(text@, lines@, ls@),
            spans_within(lines@, 0, text@.len() as int),
            i <= lines@.len(),
            k <= n,
            i + k <= lines@.len(),
            atoms@.len() == k,
            table_from(ls@, i as int, 0, n as int, c) == prepend(
                atoms@.map_values(|a: Atom| a@),
                table_from(ls@, i as int, k as int, n as int, c),
            ),
        decreases n - k,
    {
        if k >= lines.len() - i {
            return Err(VacfError::UnexpectedEof);
        }
        let l = lines[i + k];
        assert(span(text@, l) == ls@[i + k]);
        match read_atom(text, l, c) {
            None => {
                return Err(VacfError::MalformedAtomRecord { line: i + k + 1 });
            },
            Some(a) => {
                let ghost p = atoms@.map_values(|a: Atom| a@);
                let ghost rest = table_from(ls@, i as int, k + 1, n as int, c);
                atoms.push(a);
                assert(atoms@.map_values(|a: Atom| a@) =~= p.push(a@));
                proof {
                    if rest is Ok {
                        let s = rest.unwrap();
                        assert(p + (seq![a@] + s) =~= p.push(a@) + s);
                    }
                }
                k = k + 1;
            },
        }
    }
    assert(atoms@.map_values(|a: Atom| a@) + Seq::<AtomView>::empty() =~= atoms@.map_values(
        |a: Atom| a@,
    ));
    Ok(atoms)
}

/// Reads the frames of a trajectory from the text of a dump file.
///
/// Each block is a `ITEM: TIMESTEP` line and a line with the timestep, an
/// `ITEM: NUMBER OF ATOMS` line and a line with the count, and an
/// `ITEM: ATOMS` line whose fourth word chooses how the type column reads,
/// followed by that many data lines `id type x y z vx vy vz`. Other lines are
/// passed over.
pub fn parse_dump(text: &[u8]) -> (r: Result<Vec<Frame>, VacfError>)
    ensures
        match r {
            Ok(frames) => dump_frames(text@) == Ok::<Seq<FrameView>, VacfError>(frames_view(frames@)),
            Err(e) => dump_frames(text@) == Err::<Seq<FrameView>, _>(e),
        },
{
    let lines = split_lines(text);
    let ghost ls = lines_of(text@);
    let mut frames: Vec<Frame> = Vec::new();
    let mut cur: Option<(i32, usize)> = None;
    let mut i: usize = 0;
    assert(frames_view(frames@) =~= Seq::<FrameView>::empty());
    while i < lines.len()
        invariant
            spans_are(text@, lines@, ls),
            spans_within(lines@, 0, text@.len() as int),
            i <= lines@.len(),
            dump_frames(text@) == frames_from(ls, i as int, cur, frames_view(frames@)),
        decreases lines@.len() - i,
    {
        let l = lines[i];
        assert(span(text@, l) == ls[i as int]);
        let ws = split_words(text, l.0, l.1);
        let ghost w = words_of(ls[i as int]);
        match marker_of(text, &ws, Ghost(w)) {
            Marker::Timestep => {
                if i + 1 >= lines.len() {
                    return Err(VacfError::UnexpectedEof);
                }
                assert(span(text@, lines@[i + 1]) == ls[i + 1]);
                match read_i32_line(text, lines[i + 1]) {
                    None => {
                        return Err(VacfError::MalformedHeader { line: i + 2 });
                    },
                    Some(ts) => {
                        cur = Some((ts, 0));
                        i = i + 2;
                    },
                }
            },
            Marker::Count => {
                if i + 1 >= lines.len() {
                    return Err(VacfError::UnexpectedEof);
                }
                assert(span(text@, lines@[i + 1]) == ls[i + 1]);
                match read_usize_line(text, lines[i + 1]) {
                    None => {
                        return Err(VacfError::MalformedHeader { line: i + 2 });
                    },
                    Some(n) => {
                        cur = match cur {
                            Some(h) => Some((h.0, n)),
                            None => None,
                        };
                        i = i + 2;
                    },
                }
            },
            Marker::Table => {
                if ws.len() < 4 {
                    return Err(VacfError::MalformedHeader { line: i + 1 });
                }
                let (ts, n) = match cur {
                    None => {
                        return Err(VacfError::MalformedHeader { line: i + 1 });
                    },
                    Some(h) => h,
                };
                let c = determine_atom_type(text, ws[3]);
                match read_table(text, &lines, Ghost(ls), i + 1, n, c) {
                    Err(e) => {
                        return Err(e);
                    },
                    Ok(atoms) => {
                        let ghost old_frames = frames@;
                        let frame = Frame { timestep: ts, num_atoms: n, atoms };
                        frames.push(frame);
                        assert(frames_view(frames@) =~= frames_view(old_frames).push(frame@));
                        cur = None;
                        i = i + 1 + n;
                    },
                }
            },
            Marker::Other => {
                i = i + 1;
            },
        }
    }
    match cur {
        Some(_) => Err(VacfError::UnexpectedEof),
        None => Ok(frames),
    }
}

} // verus!
