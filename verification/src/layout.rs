//! Where the finder window goes on the terminal: its layout and sizes as the `--layout`
//! option writes them (`float,h=11,w=full` or `full,height=50%`).
use vstd::prelude::*;
use crate::text::{
    lemma_split_on_len, chars_are, chars_of, find_char, index_of_char, parse_i32, parse_i32_spec, slice_to_vec, split_by,
    split_on, string_from_chars, trim, trim_spec,
};

verus! {

/// A size: a number of cells (from the far end where negative), a percentage as written
/// (before the `%`, for the caller to read as a number), or all there is.
#[derive(Debug, Clone, PartialEq, Eq)]
pub enum WindowLayoutSize {
    Absolute(i32),
    Fraction(String),
    Full,
}

/// A window floating over the terminal, or taking its full width.
#[derive(Debug, Clone, PartialEq, Eq)]
pub enum WindowLayout {
    Float {
        height: WindowLayoutSize,
        width: WindowLayoutSize,
        column: WindowLayoutSize,
        row: WindowLayoutSize,
    },
    Full { height: WindowLayoutSize },
}

/// Why a layout cannot be read.
#[derive(Debug, Clone, PartialEq, Eq)]
pub enum LayoutError {
    /// A size that is neither `full`, `dynamic`, a percentage nor an integer.
    InvalidSize(String),
    /// A layout name other than `float` and `full`.
    InvalidName(String),
}

/// A size by its plain values.
pub enum SizeView {
    Absolute(i32),
    Fraction(Seq<char>),
    Full,
}

/// A layout by its plain values.
pub enum LayoutView {
    Float { height: SizeView, width: SizeView, column: SizeView, row: SizeView },
    Full { height: SizeView },
}

/// Why a layout cannot be read, by plain values.
pub enum LayoutErrorView {
    InvalidSize(Seq<char>),
    InvalidName(Seq<char>),
}

pub open spec fn size_view(s: WindowLayoutSize) -> SizeView {
    match s {
        WindowLayoutSize::Absolute(v) => SizeView::Absolute(v),
        WindowLayoutSize::Fraction(t) => SizeView::Fraction(t@),
        WindowLayoutSize::Full => SizeView::Full,
    }
}

pub open spec fn layout_view(l: WindowLayout) -> LayoutView {
    match l {
        WindowLayout::Float { height, width, column, row } => LayoutView::Float {
            height: size_view(height),
            width: size_view(width),
            column: size_view(column),
            row: size_view(row),
        },
        WindowLayout::Full { height } => LayoutView::Full { height: size_view(height) },
    }
}

pub open spec fn error_view(e: LayoutError) -> LayoutErrorView {
    match e {
        LayoutError::InvalidSize(t) => LayoutErrorView::InvalidSize(t@),
        LayoutError::InvalidName(t) => LayoutErrorView::InvalidName(t@),
    }
}

/// The size that a text holds, between surrounding whitespace.
pub open spec fn size_spec(s: Seq<char>) -> Option<SizeView> {
    let t = trim_spec(s);
    if t == "full"@ || t == "dynamic"@ {
        Some(SizeView::Full)
    } else if t.len() > 0 && t.last() == '%' {
        Some(SizeView::Fraction(t.drop_last()))
    } else {
        match parse_i32_spec(t) {
            Some(v) => Some(SizeView::Absolute(v)),
            None => None,
        }
    }
}

/// The key and value of an attribute `key=value`, each trimmed; none without `=`.
pub open spec fn attribute(part: Seq<char>) -> Option<(Seq<char>, Seq<char>)> {
    match index_of_char(part, '=') {
        Some(i) => Some((trim_spec(part.take(i)), trim_spec(part.skip(i + 1)))),
        None => None,
    }
}

/// Which size of a layout a key names: 0 height, 1 width, 2 column, 3 row.
pub open spec fn size_slot(key: Seq<char>) -> Option<int> {
    if key == "height"@ || key == "h"@ {
        Some(0)
    } else if key == "width"@ || key == "w"@ {
        Some(1)
    } else if key == "column"@ || key == "c"@ {
        Some(2)
    } else if key == "row"@ || key == "r"@ {
        Some(3)
    } else {
        None
    }
}

/// The sizes after reading the attributes `parts` in order, starting from `sizes`; the first
/// size that cannot be read stops the reading. Only the slots below `slots` are read.
pub open spec fn sizes_fold(parts: Seq<Seq<char>>, sizes: Seq<SizeView>, slots: int) -> Result<
    Seq<SizeView>,
    LayoutErrorView,
>
    decreases parts.len(),
{
    if parts.len() == 0 {
        Ok(sizes)
    } else {
        match sizes_fold(parts.drop_last(), sizes, slots) {
            Ok(now) => match attribute(parts.last()) {
                Some((key, value)) => match size_slot(key) {
                    Some(slot) => if slot < slots {
                        match size_spec(value) {
                            Some(size) => Ok(now.update(slot, size)),
                            None => Err(LayoutErrorView::InvalidSize(value)),
                        }
                    } else {
                        Ok(now)
                    },
                    None => Ok(now),
                },
                None => Ok(now),
            },
            Err(e) => Err(e),
        }
    }
}

/// The layout that a text holds: a name, `float` or `full`, then attributes separated by
/// commas. A floating window is 11 rows high, full width, at the first column and the last
/// row by default; a full one takes all rows by default.
pub open spec fn layout_spec(s: Seq<char>) -> Result<LayoutView, LayoutErrorView> {
    let parts = split_on(trim_spec(s), ',');
    let name = parts[0];
    let attrs = parts.skip(1);
    if name == "float"@ {
        match sizes_fold(
            attrs,
            seq![SizeView::Absolute(11), SizeView::Full, SizeView::Absolute(0), SizeView::Full],
            4,
        ) {
            Ok(z) => Ok(LayoutView::Float { height: z[0], width: z[1], column: z[2], row: z[3] }),
            Err(e) => Err(e),
        }
    } else if name == "full"@ {
        match sizes_fold(attrs, seq![SizeView::Full], 1) {
            Ok(z) => Ok(LayoutView::Full { height: z[0] }),
            Err(e) => Err(e),
        }
    } else {
        Err(LayoutErrorView::InvalidName(name))
    }
}

impl WindowLayoutSize {
    /// Reads a size.
    pub fn parse(s: &[char]) -> (r: Option<WindowLayoutSize>)
        ensures
            match size_spec(s@) {
                Some(v) => r matches Some(z) && size_view(z) == v,
                None => r is None,
            },
    {
        let t = trim(s);
        if chars_are(t.as_slice(), "full") || chars_are(t.as_slice(), "dynamic") {
            Some(WindowLayoutSize::Full)
        } else if t.len() > 0 && t[t.len() - 1] == '%' {
            let digits = slice_to_vec(t.as_slice(), 0, t.len() - 1);
            assert(digits@ =~= t@.drop_last());
            Some(WindowLayoutSize::Fraction(string_from_chars(digits.as_slice())))
        } else {
            match parse_i32(t.as_slice()) {
                Some(v) => Some(WindowLayoutSize::Absolute(v)),
                None => None,
            }
        }
    }

    pub fn is_full(&self) -> (r: bool)
        ensures
            r == (*self is Full),
    {
        matches!(self, WindowLayoutSize::Full)
    }

    /// The number of cells an absolute size takes of `size`: at most `size`, counted from the
    /// far end where it is negative.
    pub fn calc_absolute(diff: i32, size: usize) -> (r: usize)
        requires
            diff > i32::MIN,
        ensures
            r == if diff >= 0 {
                if diff as int <= size as int {
                    diff as int
                } else {
                    size as int
                }
            } else {
                size - if -diff <= size as int {
                    -diff
                } else {
                    size as int
                }
            },
    {
        if diff >= 0 {
            let d = diff as u32 as usize;
            if d <= size {
                d
            } else {
                size
            }
        } else {
            let d = (-diff) as u32 as usize;
            size - if d <= size {
                d
            } else {
                size
            }
        }
    }
}

fn size_slot_exec(key: &[char]) -> (r: Option<usize>)
    ensures
        match size_slot(key@) {
            Some(i) => r == Some(i as usize),
            None => r is None,
        },
{
    if chars_are(key, "height") || chars_are(key, "h") {
        Some(0)
    } else if chars_are(key, "width") || chars_are(key, "w") {
        Some(1)
    } else if chars_are(key, "column") || chars_are(key, "c") {
        Some(2)
    } else if chars_are(key, "row") || chars_are(key, "r") {
        Some(3)
    } else {
        None
    }
}

fn attribute_exec(part: &Vec<char>) -> (r: Option<(Vec<char>, Vec<char>)>)
    ensures
        match attribute(part@) {
            Some(kv) => r matches Some(p) && p.0@ == kv.0 && p.1@ == kv.1,
            None => r is None,
        },
{
    let n = part.len();
    match find_char(part.as_slice(), '=') {
        Some(i) => {
            let key = slice_to_vec(part.as_slice(), 0, i);
            let value = slice_to_vec(part.as_slice(), i + 1, n);
            assert(key@ =~= part@.take(i as int));
            assert(value@ =~= part@.skip(i + 1));
            Some((trim(key.as_slice()), trim(value.as_slice())))
        },
        None => None,
    }
}

proof fn lemma_sizes_fold_stops(
    parts: Seq<Seq<char>>,
    sizes: Seq<SizeView>,
    slots: int,
    i: int,
    e: LayoutErrorView,
)
    requires
        0 <= i <= parts.len(),
        sizes_fold(parts.take(i), sizes, slots) == Err::<Seq<SizeView>, LayoutErrorView>(e),
    ensures
        sizes_fold(parts, sizes, slots) == Err::<Seq<SizeView>, LayoutErrorView>(e),
    decreases parts.len() - i,
{
    if i < parts.len() {
        assert(parts.take(i + 1).drop_last() =~= parts.take(i));
        lemma_sizes_fold_stops(parts, sizes, slots, i + 1, e);
    } else {
        assert(parts.take(i) =~= parts);
    }
}

/// Reads the attributes of a layout into its sizes.
fn read_sizes(parts: &Vec<Vec<char>>, sizes: Vec<WindowLayoutSize>, slots: usize) -> (r: Result<
    Vec<WindowLayoutSize>,
    LayoutError,
>)
    requires
        sizes@.len() == slots,
        1 <= parts@.len(),
    ensures
        match sizes_fold(parts.deep_view().skip(1), sizes@.map_values(|z| size_view(z)), slots as int) {
            Ok(v) => r matches Ok(z) && z@.map_values(|z| size_view(z)) == v,
            Err(e) => r matches Err(x) && error_view(x) == e,
        },
        r matches Ok(z) ==> z@.len() == slots,
{
    let ghost all = parts.deep_view().skip(1);
    let ghost start = sizes@.map_values(|z| size_view(z));
    let mut cur = sizes;
    let mut k: usize = 1;
    proof {
        assert(all.take(0) =~= Seq::<Seq<char>>::empty());
    }
    while k < parts.len()
        invariant
            1 <= k <= parts@.len(),
            all == parts.deep_view().skip(1),
            start.len() == slots,
            start == sizes@.map_values(|z| size_view(z)),
            cur@.len() == slots,
            sizes_fold(all.take(k - 1), start, slots as int) == Ok::<Seq<SizeView>, LayoutErrorView>(
                cur@.map_values(|z| size_view(z)),
            ),
        decreases parts@.len() - k,
    {
        proof {
            assert(all.take(k as int).drop_last() =~= all.take(k - 1));
            assert(all.take(k as int).last() == parts@[k as int]@);
        }
        match attribute_exec(&parts[k]) {
            Some((key, value)) => match size_slot_exec(key.as_slice()) {
                Some(slot) => if slot < slots {
                    match WindowLayoutSize::parse(value.as_slice()) {
                        Some(size) => {
                            let ghost before = cur@;
                            cur.set(slot, size);
                            proof {
                                assert(cur@.map_values(|z| size_view(z)) =~= before.map_values(
                                    |z| size_view(z),
                                ).update(slot as int, size_view(size)));
                            }
                        },
                        None => {
                            proof {
                                assert(sizes_fold(all.take(k as int), start, slots as int) == Err::<
                                    Seq<SizeView>,
                                    LayoutErrorView,
                                >(LayoutErrorView::InvalidSize(value@)));
                                lemma_sizes_fold_stops(
                                    all,
                                    start,
                                    slots as int,
                                    k as int,
                                    LayoutErrorView::InvalidSize(value@),
                                );
                            }
                            return Err(LayoutError::InvalidSize(string_from_chars(value.as_slice())));
                        },
                    }
                },
                None => {},
            },
            None => {},
        }
        k = k + 1;
    }
    proof {
        assert(all.take(k - 1) =~= all);
    }
    Ok(cur)
}

impl WindowLayout {
    /// Reads a layout.
    pub fn from_str(string: &str) -> (r: Result<WindowLayout, LayoutError>)
        ensures
            match layout_spec(string@) {
                Ok(v) => r matches Ok(l) && layout_view(l) == v,
                Err(e) => r matches Err(x) && error_view(x) == e,
            },
    {
        let text = chars_of(string);
        let t = trim(text.as_slice());
        let parts = split_by(t.as_slice(), ',');
        proof {
            crate::text::lemma_split_on_len(t@, ',');
        }
        let name = &parts[0];
        assert(parts@[0]@ =~= parts.deep_view()[0]);
        if chars_are(name.as_slice(), "float") {
            let mut sizes: Vec<WindowLayoutSize> = Vec::new();
            sizes.push(WindowLayoutSize::Absolute(11));
            sizes.push(WindowLayoutSize::Full);
            sizes.push(WindowLayoutSize::Absolute(0));
            sizes.push(WindowLayoutSize::Full);
            proof {
                assert(sizes@.map_values(|z| size_view(z)) =~= seq![
                    SizeView::Absolute(11),
                    SizeView::Full,
                    SizeView::Absolute(0),
                    SizeView::Full,
                ]);
            }
            let mut z = read_sizes(&parts, sizes, 4)?;
            let row = z.pop().unwrap();
            let column = z.pop().unwrap();
            let width = z.pop().unwrap();
            let height = z.pop().unwrap();
            Ok(WindowLayout::Float { height, width, column, row })
        } else if chars_are(name.as_slice(), "full") {
            let mut sizes: Vec<WindowLayoutSize> = Vec::new();
            sizes.push(WindowLayoutSize::Full);
            proof {
                assert(sizes@.map_values(|z| size_view(z)) =~= seq![SizeView::Full]);
            }
            let mut z = read_sizes(&parts, sizes, 1)?;
            let height = z.pop().unwrap();
            Ok(WindowLayout::Full { height })
        } else {
            Err(LayoutError::InvalidName(string_from_chars(name.as_slice())))
        }
    }
}

/// A long key name and its short one: `height` and `h`, `width` and `w`, `column` and `c`,
/// `row` and `r`.
pub open spec fn key_pair(long: Seq<char>, short: Seq<char>) -> bool {
    ||| long == "height"@ && short == "h"@
    ||| long == "width"@ && short == "w"@
    ||| long == "column"@ && short == "c"@
    ||| long == "row"@ && short == "r"@
}

/// Two attributes that say the same: the same, or the same value under a long key name and
/// under its short one.
pub open spec fn same_attribute(p: Seq<char>, q: Seq<char>) -> bool {
    ||| attribute(p) == attribute(q)
    ||| (attribute(p) matches Some((ka, va)) && attribute(q) matches Some((kb, vb)) && va == vb
        && key_pair(ka, kb))
}

/// The key names of the sizes: `height`/`h` name the height, `width`/`w` the width,
/// `column`/`c` the column and `row`/`r` the row, and no other key names a size.
pub proof fn law_size_keys(key: Seq<char>)
    ensures
        size_slot("height"@) == Some(0int) && size_slot("h"@) == Some(0int),
        size_slot("width"@) == Some(1int) && size_slot("w"@) == Some(1int),
        size_slot("column"@) == Some(2int) && size_slot("c"@) == Some(2int),
        size_slot("row"@) == Some(3int) && size_slot("r"@) == Some(3int),
        !(key == "height"@ || key == "h"@ || key == "width"@ || key == "w"@ || key == "column"@
            || key == "c"@ || key == "row"@ || key == "r"@) ==> size_slot(key) is None,
{
    reveal_strlit("height");
    reveal_strlit("h");
    reveal_strlit("width");
    reveal_strlit("w");
    reveal_strlit("column");
    reveal_strlit("c");
    reveal_strlit("row");
    reveal_strlit("r");
    assert("h"@ != "height"@) by {
        if "h"@ == "height"@ {
            assert("h"@.len() == "height"@.len());
        }
    }
    assert("width"@ != "height"@) by {
        if "width"@ == "height"@ {
            assert("width"@.len() == "height"@.len());
        }
    }
    assert("width"@ != "h"@) by {
        if "width"@ == "h"@ {
            assert("width"@.len() == "h"@.len());
        }
    }
    assert("w"@ != "height"@) by {
        if "w"@ == "height"@ {
            assert("w"@.len() == "height"@.len());
        }
    }
    assert("w"@ != "h"@) by {
        if "w"@ == "h"@ {
            assert("w"@[0] == "h"@[0]);
        }
    }
    assert("w"@ != "width"@) by {
        if "w"@ == "width"@ {
            assert("w"@.len() == "width"@.len());
        }
    }
    assert("column"@ != "height"@) by {
        if "column"@ == "height"@ {
            assert("column"@[0] == "height"@[0]);
        }
    }
    assert("column"@ != "h"@) by {
        if "column"@ == "h"@ {
            assert("column"@.len() == "h"@.len());
        }
    }
    assert("column"@ != "width"@) by {
        if "column"@ == "width"@ {
            assert("column"@.len() == "width"@.len());
        }
    }
    assert("column"@ != "w"@) by {
        if "column"@ == "w"@ {
            assert("column"@.len() == "w"@.len());
        }
    }
    assert("c"@ != "height"@) by {
        if "c"@ == "height"@ {
            assert("c"@.len() == "height"@.len());
        }
    }
    assert("c"@ != "h"@) by {
        if "c"@ == "h"@ {
            assert("c"@[0] == "h"@[0]);
        }
    }
    assert("c"@ != "width"@) by {
        if "c"@ == "width"@ {
            assert("c"@.len() == "width"@.len());
        }
    }
    assert("c"@ != "w"@) by {
        if "c"@ == "w"@ {
            assert("c"@[0] == "w"@[0]);
        }
    }
    assert("c"@ != "column"@) by {
        if "c"@ == "column"@ {
            assert("c"@.len() == "column"@.len());
        }
    }
    assert("row"@ != "height"@) by {
        if "row"@ == "height"@ {
            assert("row"@.len() == "height"@.len());
        }
    }
    assert("row"@ != "h"@) by {
        if "row"@ == "h"@ {
            assert("row"@.len() == "h"@.len());
        }
    }
    assert("row"@ != "width"@) by {
        if "row"@ == "width"@ {
            assert("row"@.len() == "width"@.len());
        }
    }
    assert("row"@ != "w"@) by {
        if "row"@ == "w"@ {
            assert("row"@.len() == "w"@.len());
        }
    }
    assert("row"@ != "column"@) by {
        if "row"@ == "column"@ {
            assert("row"@.len() == "column"@.len());
        }
    }
    assert("row"@ != "c"@) by {
        if "row"@ == "c"@ {
            assert("row"@.len() == "c"@.len());
        }
    }
    assert("r"@ != "height"@) by {
        if "r"@ == "height"@ {
            assert("r"@.len() == "height"@.len());
        }
    }
    assert("r"@ != "h"@) by {
        if "r"@ == "h"@ {
            assert("r"@[0] == "h"@[0]);
        }
    }
    assert("r"@ != "width"@) by {
        if "r"@ == "width"@ {
            assert("r"@.len() == "width"@.len());
        }
    }
    assert("r"@ != "w"@) by {
        if "r"@ == "w"@ {
            assert("r"@[0] == "w"@[0]);
        }
    }
    assert("r"@ != "column"@) by {
        if "r"@ == "column"@ {
            assert("r"@.len() == "column"@.len());
        }
    }
    assert("r"@ != "c"@) by {
        if "r"@ == "c"@ {
            assert("r"@[0] == "c"@[0]);
        }
    }
    assert("r"@ != "row"@) by {
        if "r"@ == "row"@ {
            assert("r"@.len() == "row"@.len());
        }
    }
}

/// Attributes that say the same give the same sizes: a long key name sets the same size as
/// its short one.
pub proof fn law_key_names_fold(p: Seq<Seq<char>>, q: Seq<Seq<char>>, sizes: Seq<SizeView>, slots: int)
    requires
        p.len() == q.len(),
        forall|i: int| 0 <= i < p.len() ==> #[trigger] same_attribute(p[i], q[i]),
    ensures
        sizes_fold(p, sizes, slots) == sizes_fold(q, sizes, slots),
    decreases p.len(),
{
    if p.len() > 0 {
        assert forall|i: int| 0 <= i < p.drop_last().len() implies #[trigger] same_attribute(
            p.drop_last()[i],
            q.drop_last()[i],
        ) by {
            assert(same_attribute(p[i], q[i]));
        }
        law_key_names_fold(p.drop_last(), q.drop_last(), sizes, slots);
        assert(same_attribute(p.last(), q.last()));
        if attribute(p.last()) != attribute(q.last()) {
            let (ka, va) = attribute(p.last())->0;
            let (kb, vb) = attribute(q.last())->0;
            law_size_keys(ka);
            assert(size_slot(ka) == size_slot(kb));
        }
    }
}

/// Layouts written with the same name and attributes that say the same are the same
/// layout: `float,width=50%` is `float,w=50%`.
pub proof fn law_key_names_layout(s1: Seq<char>, s2: Seq<char>)
    requires
        split_on(trim_spec(s1), ',')[0] == split_on(trim_spec(s2), ',')[0],
        split_on(trim_spec(s1), ',').len() == split_on(trim_spec(s2), ',').len(),
        forall|i: int|
            1 <= i < split_on(trim_spec(s1), ',').len() ==> #[trigger] same_attribute(
                split_on(trim_spec(s1), ',')[i],
                split_on(trim_spec(s2), ',')[i],
            ),
    ensures
        layout_spec(s1) == layout_spec(s2),
{
    lemma_split_on_len(trim_spec(s1), ',');
    let a = split_on(trim_spec(s1), ',');
    let b = split_on(trim_spec(s2), ',');
    let p = a.skip(1);
    let q = b.skip(1);
    assert forall|i: int| 0 <= i < p.len() implies #[trigger] same_attribute(p[i], q[i]) by {
        assert(p[i] == a[i + 1] && q[i] == b[i + 1]);
        assert(same_attribute(a[i + 1], b[i + 1]));
    }
    law_key_names_fold(p, q, seq![SizeView::Absolute(11), SizeView::Full, SizeView::Absolute(0), SizeView::Full], 4);
    law_key_names_fold(p, q, seq![SizeView::Full], 1);
}

/// The last attribute that reads sets the size its key names: in a floating layout,
/// `width=V` (or `w=V`) sets the width to the size V holds, and the other sizes stay.
pub proof fn law_attribute_sets_size(p: Seq<Seq<char>>, a: Seq<char>, sizes: Seq<SizeView>)
    requires
        sizes.len() == 4,
        attribute(a) matches Some((k, v)) && size_slot(k) is Some && size_spec(v) is Some,
    ensures
        match sizes_fold(p, sizes, 4) {
            Ok(now) => {
                let (k, v) = attribute(a)->0;
                let slot = size_slot(k)->0;
                &&& sizes_fold(p.push(a), sizes, 4) matches Ok(x)
                &&& x[slot] == size_spec(v)->0
                &&& forall|j: int| 0 <= j < 4 && j != slot ==> x[j] == now[j]
            },
            Err(e) => sizes_fold(p.push(a), sizes, 4) == Err::<Seq<SizeView>, LayoutErrorView>(e),
        },
{
    assert(p.push(a).drop_last() =~= p);
    let (k, v) = attribute(a)->0;
    law_size_keys(k);
    lemma_fold_len(p, sizes, 4);
}

proof fn lemma_fold_len(p: Seq<Seq<char>>, sizes: Seq<SizeView>, slots: int)
    requires
        slots <= sizes.len(),
    ensures
        sizes_fold(p, sizes, slots) matches Ok(x) ==> x.len() == sizes.len(),
    decreases p.len(),
{
    if p.len() > 0 {
        lemma_fold_len(p.drop_last(), sizes, slots);
    }
}

/// What a size text holds, between surrounding whitespace: `full` and `dynamic` are all
/// there is, a text ending in `%` is the percentage written before it, and any other text is
/// the integer it holds, or no size.
pub proof fn law_size_text(s: Seq<char>)
    ensures
        ({
            let t = trim_spec(s);
            &&& (t == "full"@ || t == "dynamic"@) ==> size_spec(s) == Some(SizeView::Full)
            &&& !(t == "full"@ || t == "dynamic"@) && t.len() > 0 && t.last() == '%' ==> size_spec(s)
                == Some(SizeView::Fraction(t.drop_last()))
            &&& !(t == "full"@ || t == "dynamic"@) && !(t.len() > 0 && t.last() == '%') ==> size_spec(s)
                == match parse_i32_spec(t) {
                Some(v) => Some(SizeView::Absolute(v)),
                None => None,
            }
        }),
{
}

/// Whether an attribute names the size numbered `j` (0 height, 1 width, 2 column, 3 row).
pub open spec fn names_slot(part: Seq<char>, j: int) -> bool {
    match attribute(part) {
        Some(kv) => size_slot(kv.0) == Some(j),
        None => false,
    }
}

/// Whether one of the attributes names the size numbered `j`.
pub open spec fn names_size(attrs: Seq<Seq<char>>, j: int) -> bool {
    exists|i: int| 0 <= i < attrs.len() && #[trigger] names_slot(attrs[i], j)
}

/// A size that no attribute names keeps the value it started with.
proof fn lemma_fold_keeps(p: Seq<Seq<char>>, sizes: Seq<SizeView>, slots: int, j: int)
    requires
        0 <= j < sizes.len(),
        slots <= sizes.len(),
        forall|i: int| 0 <= i < p.len() ==> !#[trigger] names_slot(p[i], j),
    ensures
        sizes_fold(p, sizes, slots) matches Ok(x) ==> x[j] == sizes[j],
    decreases p.len(),
{
    if p.len() > 0 {
        assert forall|i: int| 0 <= i < p.drop_last().len() implies !#[trigger] names_slot(
            p.drop_last()[i],
            j,
        ) by {
            assert(p.drop_last()[i] == p[i]);
        }
        lemma_fold_keeps(p.drop_last(), sizes, slots, j);
        lemma_fold_len(p.drop_last(), sizes, slots);
        assert(!names_slot(p[p.len() - 1], j));
    }
}

/// A floating window is 11 rows high, full width, at the first column and at the last row,
/// unless an attribute names that size; a layout of another name than `float` or `full`
/// fails with that name.
pub proof fn law_layout_defaults(s: Seq<char>)
    ensures
        ({
            let parts = split_on(trim_spec(s), ',');
            let attrs = parts.skip(1);
            &&& parts[0] == "float"@ && layout_spec(s) is Ok ==> (layout_spec(s)->Ok_0 matches LayoutView::Float {
                height,
                width,
                column,
                row,
            } && (!names_size(attrs, 0) ==> height == SizeView::Absolute(11)) && (!names_size(attrs, 1)
                ==> width == SizeView::Full) && (!names_size(attrs, 2) ==> column == SizeView::Absolute(0))
                && (!names_size(attrs, 3) ==> row == SizeView::Full))
            &&& parts[0] != "float"@ && parts[0] != "full"@ ==> layout_spec(s)
                == Err::<LayoutView, LayoutErrorView>(LayoutErrorView::InvalidName(parts[0]))
        }),
{
    let parts = split_on(trim_spec(s), ',');
    let attrs = parts.skip(1);
    let init = seq![SizeView::Absolute(11), SizeView::Full, SizeView::Absolute(0), SizeView::Full];
    if !names_size(attrs, 0) {
        lemma_fold_keeps(attrs, init, 4, 0);
    }
    if !names_size(attrs, 1) {
        lemma_fold_keeps(attrs, init, 4, 1);
    }
    if !names_size(attrs, 2) {
        lemma_fold_keeps(attrs, init, 4, 2);
    }
    if !names_size(attrs, 3) {
        lemma_fold_keeps(attrs, init, 4, 3);
    }
}

} // verus!
