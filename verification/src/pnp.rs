//! Pick-and-place (centroid) CSV: field quoting, designator sort keys and
//! the row layout of each output dialect.

use vstd::prelude::*;

use crate::text::{all_digits, digits_value, is_digit, parse_u64, parse_u64_chars, push_char, push_chars, push_str};

verus! {

/// Output dialect.
#[derive(Debug, Clone, Copy, PartialEq, Eq, Structural)]
pub enum PnpFormat {
    /// Altium-style: `Designator,Comment,Layer,Footprint,Center-X,Center-Y,Rotation,Description`.
    Altium,
    /// JLCPCB CPL: `Designator,Val,Package,Mid X,Mid Y,Rotation,Layer`.
    Jlc,
    /// KiCad `.pos` CSV: `Ref,Val,Package,PosX,PosY,Rot,Side`.
    Kicad,
}

#[derive(Debug, Clone, Copy, PartialEq, Eq, Structural)]
pub enum PnpUnits {
    Mm,
    Mil,
}

/// Whether a field needs quoting: it holds a comma, a quote or a newline.
pub open spec fn needs_quotes(s: Seq<char>) -> bool {
    s.contains(',') || s.contains('"') || s.contains('\n')
}

/// `s` with every `"` doubled.
pub open spec fn double_quotes(s: Seq<char>) -> Seq<char>
    decreases s.len(),
{
    if s.len() == 0 {
        s
    } else if s.last() == '"' {
        double_quotes(s.drop_last()) + seq!['"', '"']
    } else {
        double_quotes(s.drop_last()).push(s.last())
    }
}

/// A CSV field: quoted, with inner quotes doubled, when it needs quoting.
pub open spec fn spec_csv_field(s: Seq<char>) -> Seq<char> {
    if needs_quotes(s) {
        seq!['"'] + double_quotes(s) + seq!['"']
    } else {
        s
    }
}

pub fn csv_field(s: &str) -> (r: String)
    ensures
        r@ == spec_csv_field(s@),
{
    let v = crate::text::chars_of(s);
    let mut special = false;
    let mut i: usize = 0;
    while i < v.len()
        invariant
            i <= v@.len(),
            v@ == s@,
            special == (exists|k: int| 0 <= k < i && (v@[k] == ',' || v@[k] == '"' || v@[k] == '\n')),
        decreases v@.len() - i,
    {
        if v[i] == ',' || v[i] == '"' || v[i] == '\n' {
            special = true;
        }
        i += 1;
    }
    proof {
        if special {
            let k = choose|k: int| 0 <= k < v@.len() && (v@[k] == ',' || v@[k] == '"' || v@[k] == '\n');
            assert(s@.contains(s@[k]));
        }
        if needs_quotes(s@) {
            if s@.contains(',') {
                let k = choose|k: int| 0 <= k < s@.len() && s@[k] == ',';
                assert(v@[k] == ',');
            } else if s@.contains('"') {
                let k = choose|k: int| 0 <= k < s@.len() && s@[k] == '"';
                assert(v@[k] == '"');
            } else {
                let k = choose|k: int| 0 <= k < s@.len() && s@[k] == '\n';
                assert(v@[k] == '\n');
            }
        }
    }
    if !special {
        return crate::text::owned(s);
    }
    let mut out = String::new();
    push_char(&mut out, '"');
    let mut j: usize = 0;
    while j < v.len()
        invariant
            j <= v@.len(),
            out@ == seq!['"'] + double_quotes(v@.take(j as int)),
        decreases v@.len() - j,
    {
        let c = v[j];
        if c == '"' {
            push_char(&mut out, '"');
            push_char(&mut out, '"');
        } else {
            push_char(&mut out, c);
        }
        j += 1;
        assert(v@.take(j as int).drop_last() =~= v@.take(j - 1));
        assert(out@ =~= seq!['"'] + double_quotes(v@.take(j as int)));
    }
    assert(v@.take(v@.len() as int) =~= v@);
    push_char(&mut out, '"');
    out
}

/// What `str::to_uppercase` gives: the Unicode upper-case mapping of each
/// character (which may change the length).
pub uninterp spec fn unicode_upper(s: Seq<char>) -> Seq<char>;

/// `str::to_uppercase`.
#[verifier::external_body]
fn to_uppercase(s: &str) -> (r: String)
    ensures
        r@ == unicode_upper(s@),
{
    s.to_uppercase()
}

/// The number of ASCII digits that end `s`.
pub open spec fn trailing_digits(s: Seq<char>) -> nat
    decreases s.len(),
{
    if s.len() > 0 && is_digit(s.last()) {
        1 + trailing_digits(s.drop_last())
    } else {
        0
    }
}

/// Sort key of a designator: the part before its trailing digits,
/// upper-cased, and the value of those digits (`0` when there are none or
/// they overflow a `u64`), so that `R2` sorts before `R16`.
pub open spec fn spec_designator_key(s: Seq<char>) -> (Seq<char>, u64) {
    let cut = s.len() - trailing_digits(s);
    (
        unicode_upper(s.subrange(0, cut)),
        match parse_u64(s.subrange(cut, s.len() as int)) {
            Some(n) => n,
            None => 0,
        },
    )
}

proof fn lemma_trailing_digits_bound(s: Seq<char>)
    ensures
        trailing_digits(s) <= s.len(),
    decreases s.len(),
{
    if s.len() > 0 && is_digit(s.last()) {
        lemma_trailing_digits_bound(s.drop_last());
    }
}

pub fn designator_key(s: &str) -> (r: (String, u64))
    ensures
        r.0@ == spec_designator_key(s@).0,
        r.1 == spec_designator_key(s@).1,
{
    let v = crate::text::chars_of(s);
    let mut cut: usize = v.len();
    proof {
        lemma_trailing_digits_bound(v@);
    }
    assert(v@.take(v@.len() as int) =~= v@);
    while cut > 0 && '0' <= v[cut - 1] && v[cut - 1] <= '9'
        invariant
            cut <= v@.len(),
            v@ == s@,
            trailing_digits(v@) == (v@.len() - cut) + trailing_digits(v@.take(cut as int)),
        decreases cut,
    {
        assert(v@.take(cut as int).drop_last() =~= v@.take(cut - 1));
        cut -= 1;
    }
    assert(trailing_digits(v@.take(cut as int)) == 0);
    assert(v@.take(cut as int) =~= v@.subrange(0, cut as int));
    let prefix = crate::text::string_from_chars(&v.as_slice()[0..cut]);
    let upper = to_uppercase(prefix.as_str());
    let num = match parse_u64_chars(&v.as_slice()[cut..v.len()]) {
        Some(n) => n,
        None => 0,
    };
    (upper, num)
}

/// The unit suffix of the coordinate columns.
pub open spec fn unit_name(u: PnpUnits) -> Seq<char> {
    match u {
        PnpUnits::Mm => "mm"@,
        PnpUnits::Mil => "mil"@,
    }
}

/// The header line of a dialect.
pub open spec fn spec_pnp_header(f: PnpFormat, u: PnpUnits) -> Seq<char> {
    match f {
        PnpFormat::Altium => "Designator,Comment,Layer,Footprint,Center-X("@ + unit_name(u) + "),Center-Y("@
            + unit_name(u) + "),Rotation,Description\n"@,
        PnpFormat::Jlc => "Designator,Val,Package,Mid X,Mid Y,Rotation,Layer\n"@,
        PnpFormat::Kicad => "Ref,Val,Package,PosX,PosY,Rot,Side\n"@,
    }
}

/// The header line of a dialect.
pub fn pnp_header(f: PnpFormat, u: PnpUnits) -> (r: String)
    ensures
        r@ == spec_pnp_header(f, u),
{
    let unit = match u {
        PnpUnits::Mm => "mm",
        PnpUnits::Mil => "mil",
    };
    let mut out = String::new();
    match f {
        PnpFormat::Altium => {
            push_str(&mut out, "Designator,Comment,Layer,Footprint,Center-X(");
            push_str(&mut out, unit);
            push_str(&mut out, "),Center-Y(");
            push_str(&mut out, unit);
            push_str(&mut out, "),Rotation,Description\n");
        },
        PnpFormat::Jlc => {
            push_str(&mut out, "Designator,Val,Package,Mid X,Mid Y,Rotation,Layer\n");
        },
        PnpFormat::Kicad => {
            push_str(&mut out, "Ref,Val,Package,PosX,PosY,Rot,Side\n");
        },
    }
    assert(out@ =~= spec_pnp_header(f, u));
    out
}

/// The side column of a dialect.
pub open spec fn side_name(f: PnpFormat, bottom: bool) -> Seq<char> {
    match f {
        PnpFormat::Altium => if bottom { "BottomLayer"@ } else { "TopLayer"@ },
        PnpFormat::Jlc => if bottom { "Bottom"@ } else { "Top"@ },
        PnpFormat::Kicad => if bottom { "bottom"@ } else { "top"@ },
    }
}

/// One placement row of a dialect. The coordinates and the rotation come
/// already formatted; the text fields are quoted as CSV needs.
pub open spec fn spec_pnp_row(
    f: PnpFormat,
    designator: Seq<char>,
    comment: Seq<char>,
    footprint: Seq<char>,
    x: Seq<char>,
    y: Seq<char>,
    rotation: Seq<char>,
    bottom: bool,
    description: Seq<char>,
) -> Seq<char> {
    let c = seq![','];
    match f {
        PnpFormat::Altium => spec_csv_field(designator) + c + spec_csv_field(comment) + c + side_name(f, bottom)
            + c + spec_csv_field(footprint) + c + x + c + y + c + rotation + c + spec_csv_field(description)
            + seq!['\n'],
        _ => spec_csv_field(designator) + c + spec_csv_field(comment) + c + spec_csv_field(footprint) + c + x + c
            + y + c + rotation + c + side_name(f, bottom) + seq!['\n'],
    }
}

fn side_str(f: PnpFormat, bottom: bool) -> (r: &'static str)
    ensures
        r@ == side_name(f, bottom),
{
    match f {
        PnpFormat::Altium => if bottom { "BottomLayer" } else { "TopLayer" },
        PnpFormat::Jlc => if bottom { "Bottom" } else { "Top" },
        PnpFormat::Kicad => if bottom { "bottom" } else { "top" },
    }
}

/// One placement row of a dialect.
pub fn pnp_row(
    f: PnpFormat,
    designator: &str,
    comment: &str,
    footprint: &str,
    x: &str,
    y: &str,
    rotation: &str,
    bottom: bool,
    description: &str,
) -> (r: String)
    ensures
        r@ == spec_pnp_row(f, designator@, comment@, footprint@, x@, y@, rotation@, bottom, description@),
{
    let mut out = String::new();
    let d = csv_field(designator);
    let c = csv_field(comment);
    let p = csv_field(footprint);
    let side = side_str(f, bottom);
    push_str(&mut out, d.as_str());
    push_char(&mut out, ',');
    push_str(&mut out, c.as_str());
    push_char(&mut out, ',');
    match f {
        PnpFormat::Altium => {
            push_str(&mut out, side);
            push_char(&mut out, ',');
            push_str(&mut out, p.as_str());
            push_char(&mut out, ',');
            push_str(&mut out, x);
            push_char(&mut out, ',');
            push_str(&mut out, y);
            push_char(&mut out, ',');
            push_str(&mut out, rotation);
            push_char(&mut out, ',');
            let e = csv_field(description);
            push_str(&mut out, e.as_str());
        },
        _ => {
            push_str(&mut out, p.as_str());
            push_char(&mut out, ',');
            push_str(&mut out, x);
            push_char(&mut out, ',');
            push_str(&mut out, y);
            push_char(&mut out, ',');
            push_str(&mut out, rotation);
            push_char(&mut out, ',');
            push_str(&mut out, side);
        },
    }
    push_char(&mut out, '\n');
    assert(out@ =~= spec_pnp_row(f, designator@, comment@, footprint@, x@, y@, rotation@, bottom, description@));
    out
}


/// The side column tells the two sides apart in every dialect: a bottom
/// component's row differs from the same component's row on top (it is three
/// characters longer), the bottom side is spelled `BottomLayer`, `Bottom` and
/// `bottom` and the top side `TopLayer`, `Top` and `top`, and in the dialects
/// whose side column comes last a bottom row ends in its bottom word.
pub proof fn lemma_pnp_side_column(
    f: PnpFormat,
    designator: Seq<char>,
    comment: Seq<char>,
    footprint: Seq<char>,
    x: Seq<char>,
    y: Seq<char>,
    rotation: Seq<char>,
    description: Seq<char>,
)
    ensures
        side_name(f, true) != side_name(f, false),
        spec_pnp_row(f, designator, comment, footprint, x, y, rotation, true, description).len() == spec_pnp_row(
            f,
            designator,
            comment,
            footprint,
            x,
            y,
            rotation,
            false,
            description,
        ).len() + 3,
        spec_pnp_row(f, designator, comment, footprint, x, y, rotation, true, description) != spec_pnp_row(
            f,
            designator,
            comment,
            footprint,
            x,
            y,
            rotation,
            false,
            description,
        ),
        f == PnpFormat::Altium ==> side_name(f, true) == "BottomLayer"@ && side_name(f, false) == "TopLayer"@,
        f == PnpFormat::Jlc ==> side_name(f, true) == "Bottom"@ && side_name(f, false) == "Top"@,
        f == PnpFormat::Kicad ==> side_name(f, true) == "bottom"@ && side_name(f, false) == "top"@,
        f == PnpFormat::Jlc ==> ({
            let r = spec_pnp_row(f, designator, comment, footprint, x, y, rotation, true, description);
            r.subrange(r.len() - 7, r.len() as int) == seq!['B', 'o', 't', 't', 'o', 'm', '\n']
        }),
        f == PnpFormat::Kicad ==> ({
            let r = spec_pnp_row(f, designator, comment, footprint, x, y, rotation, true, description);
            r.subrange(r.len() - 7, r.len() as int) == seq!['b', 'o', 't', 't', 'o', 'm', '\n']
        }),
{
    reveal_strlit("BottomLayer");
    reveal_strlit("TopLayer");
    reveal_strlit("Bottom");
    reveal_strlit("Top");
    reveal_strlit("bottom");
    reveal_strlit("top");
    let rt = spec_pnp_row(f, designator, comment, footprint, x, y, rotation, true, description);
    let rf = spec_pnp_row(f, designator, comment, footprint, x, y, rotation, false, description);
    assert(side_name(f, true).len() == side_name(f, false).len() + 3);
    assert(rt.len() == rf.len() + 3);
    if f != PnpFormat::Altium {
        let pre = spec_csv_field(designator) + seq![','] + spec_csv_field(comment) + seq![','] + spec_csv_field(footprint)
            + seq![','] + x + seq![','] + y + seq![','] + rotation + seq![','];
        assert(rt =~= pre + side_name(f, true) + seq!['\n']);
        assert(rt.subrange(rt.len() - 7, rt.len() as int) =~= side_name(f, true) + seq!['\n']);
    }
}

} // verus!
