//! The text that the derive macros splice into their generated impls: the
//! match arms that turn an enum's variants into their names and back, and
//! the `(name, value)` entries that make a struct iterable.
use crate::text::{join_lines, spec_join};
use vstd::prelude::*;

verus! {

/// `E::V => "V",`
pub open spec fn to_name_arm(e: Seq<char>, v: Seq<char>) -> Seq<char> {
    e + "::"@ + v + " => \""@ + v + "\","@
}

/// `"V" => E::V,`
pub open spec fn from_name_arm(e: Seq<char>, v: Seq<char>) -> Seq<char> {
    "\""@ + v + "\" => "@ + e + "::"@ + v + ","@
}

/// `("f", slf.f.clone().into_py(py)),`
pub open spec fn field_entry(f: Seq<char>) -> Seq<char> {
    "(\""@ + f + "\", slf."@ + f + ".clone().into_py(py)),"@
}

/// The two sets of match arms of `#[derive(EnumToPyObject)]`.
pub struct EnumArms {
    /// One `E::V => "V",` per variant, a line each.
    pub to_name: String,
    /// One `"V" => E::V,` per variant, a line each.
    pub from_name: String,
}

fn to_name_arm_text(e: &str, v: &str) -> (r: String)
    ensures
        r@ == to_name_arm(e@, v@),
{
    let mut r = String::new();
    r.append(e);
    r.append("::");
    r.append(v);
    r.append(" => \"");
    r.append(v);
    r.append("\",");
    r
}

fn from_name_arm_text(e: &str, v: &str) -> (r: String)
    ensures
        r@ == from_name_arm(e@, v@),
{
    let mut r = String::new();
    r.append("\"");
    r.append(v);
    r.append("\" => ");
    r.append(e);
    r.append("::");
    r.append(v);
    r.append(",");
    r
}

fn field_entry_text(f: &str) -> (r: String)
    ensures
        r@ == field_entry(f@),
{
    let mut r = String::new();
    r.append("(\"");
    r.append(f);
    r.append("\", slf.");
    r.append(f);
    r.append(".clone().into_py(py)),");
    r
}

/// The match arms of `#[derive(EnumToPyObject)]` for the enum `enum_name`
/// with the given variants, in order.
pub fn enum_to_py_object(enum_name: &str, variants: &Vec<String>) -> (r: EnumArms)
    ensures
        r.to_name@ == spec_join(
            variants@.map_values(|v: String| to_name_arm(enum_name@, v@)),
            "\n"@,
        ),
        r.from_name@ == spec_join(
            variants@.map_values(|v: String| from_name_arm(enum_name@, v@)),
            "\n"@,
        ),
{
    let mut to_lines: Vec<String> = Vec::new();
    let mut from_lines: Vec<String> = Vec::new();
    let n = variants.len();
    let mut i: usize = 0;
    while i < n
        invariant
            n == variants.len(),
            0 <= i <= n,
            to_lines@.map_values(|s: String| s@) == variants@.take(i as int).map_values(
                |v: String| to_name_arm(enum_name@, v@),
            ),
            from_lines@.map_values(|s: String| s@) == variants@.take(i as int).map_values(
                |v: String| from_name_arm(enum_name@, v@),
            ),
        decreases n - i,
    {
        let v = variants[i].as_str();
        let ghost old_to = to_lines@;
        let ghost old_from = from_lines@;
        let to_arm = to_name_arm_text(enum_name, v);
        let from_arm = from_name_arm_text(enum_name, v);
        to_lines.push(to_arm);
        from_lines.push(from_arm);
        proof {
            assert(v@ == variants[i as int]@);
            assert(to_lines@.map_values(|s: String| s@) =~= old_to.map_values(|s: String| s@).push(
                to_arm@,
            ));
            assert(from_lines@.map_values(|s: String| s@) =~= old_from.map_values(
                |s: String| s@,
            ).push(from_arm@));
            assert(variants@.take((i + 1) as int) =~= variants@.take(i as int).push(
                variants[i as int],
            ));
            assert(to_lines@.map_values(|s: String| s@) =~= variants@.take(
                (i + 1) as int,
            ).map_values(|v: String| to_name_arm(enum_name@, v@)));
            assert(from_lines@.map_values(|s: String| s@) =~= variants@.take(
                (i + 1) as int,
            ).map_values(|v: String| from_name_arm(enum_name@, v@)));
        }
        i = i + 1;
    }
    proof {
        assert(variants@.take(n as int) =~= variants@);
    }
    EnumArms { to_name: join_lines(&to_lines, "\n"), from_name: join_lines(&from_lines, "\n") }
}

/// The entries that `#[derive(Iterable)]` lists for a struct with the given
/// fields, in order, a line each.
pub fn derive_iterable(fields: &Vec<String>) -> (r: String)
    ensures
        r@ == spec_join(fields@.map_values(|f: String| field_entry(f@)), "\n"@),
{
    let mut lines: Vec<String> = Vec::new();
    let n = fields.len();
    let mut i: usize = 0;
    while i < n
        invariant
            n == fields.len(),
            0 <= i <= n,
            lines@.map_values(|s: String| s@) == fields@.take(i as int).map_values(
                |f: String| field_entry(f@),
            ),
        decreases n - i,
    {
        let ghost old_lines = lines@;
        let entry = field_entry_text(fields[i].as_str());
        lines.push(entry);
        proof {
            assert(lines@.map_values(|s: String| s@) =~= old_lines.map_values(|s: String| s@).push(
                entry@,
            ));
            assert(fields@.take((i + 1) as int) =~= fields@.take(i as int).push(fields[i as int]));
            assert(lines@.map_values(|s: String| s@) =~= fields@.take((i + 1) as int).map_values(
                |f: String| field_entry(f@),
            ));
        }
        i = i + 1;
    }
    proof {
        assert(fields@.take(n as int) =~= fields@);
    }
    join_lines(&lines, "\n")
}

/// `"v"`: the string literal whose value is `v`.
pub open spec fn quoted(v: Seq<char>) -> Seq<char> {
    "\""@ + v + "\""@
}

/// The position of the first of `names` equal to `s`: the arm that a match
/// over the literals of `names`, in order, selects for the value `s`.
pub open spec fn first_name_index(names: Seq<Seq<char>>, s: Seq<char>) -> Option<int>
    decreases names.len(),
{
    if names.len() == 0 {
        None
    } else if names[0] == s {
        Some(0)
    } else {
        match first_name_index(names.drop_first(), s) {
            Some(j) => Some(j + 1),
            None => None,
        }
    }
}

proof fn lemma_first_name_index(names: Seq<Seq<char>>, i: int)
    requires
        0 <= i < names.len(),
        forall|a: int, b: int| 0 <= a < b < names.len() ==> names[a] != names[b],
    ensures
        first_name_index(names, names[i]) == Some(i),
    decreases i,
{
    if i > 0 {
        assert(names[0] != names[i]);
        let rest = names.drop_first();
        assert forall|a: int, b: int| 0 <= a < b < rest.len() implies rest[a] != rest[b] by {
            assert(names[a + 1] != names[b + 1]);
        }
        assert(rest[i - 1] == names[i]);
        lemma_first_name_index(rest, i - 1);
    }
}

/// Law: the two generated matches invert each other.  For distinct variant
/// names (as an enum's are), the arm of variant `i` in the first match maps
/// `E::v` to the literal `"v"`; the first arm of the second match whose
/// pattern is that literal is arm `i`, and it maps back to `E::v`.
pub proof fn lemma_generated_arms_invert(e: Seq<char>, names: Seq<Seq<char>>, i: int)
    requires
        0 <= i < names.len(),
        forall|a: int, b: int| 0 <= a < b < names.len() ==> names[a] != names[b],
    ensures
        to_name_arm(e, names[i]) == e + "::"@ + names[i] + " => "@ + "\""@ + names[i] + "\""@
            + ","@,
        from_name_arm(e, names[i]) == "\""@ + names[i] + "\""@ + " => "@ + e + "::"@ + names[i]
            + ","@,
        first_name_index(names, names[i]) == Some(i),
{
    reveal_strlit(" => \"");
    reveal_strlit("\",");
    reveal_strlit("\" => ");
    reveal_strlit("\"");
    reveal_strlit(" => ");
    reveal_strlit(",");
    let v = names[i];
    assert(to_name_arm(e, v) =~= e + "::"@ + v + " => "@ + "\""@ + v + "\""@ + ","@);
    assert(from_name_arm(e, v) =~= "\""@ + v + "\""@ + " => "@ + e + "::"@ + v + ","@);
    lemma_first_name_index(names, i);
}

/// Law: the entry of field `f` is the tuple of its name and its value: it
/// opens with `("`, then comes the whole name `f` as the key, then `", slf.`,
/// the field `f` again, and `.clone().into_py(py)),` to close, for names of
/// any length.
pub proof fn lemma_field_entry_parts(f: Seq<char>)
    ensures
        field_entry(f).len() == 2 * f.len() + 31,
        field_entry(f).take(2) == "(\""@,
        field_entry(f).subrange(2, 2 + f.len() as int) == f,
        field_entry(f).subrange(2 + f.len() as int, 9 + f.len() as int) == "\", slf."@,
        field_entry(f).subrange(9 + f.len() as int, 9 + 2 * (f.len() as int)) == f,
        field_entry(f).skip(9 + 2 * (f.len() as int)) == ".clone().into_py(py)),"@,
{
    reveal_strlit("(\"");
    reveal_strlit("\", slf.");
    reveal_strlit(".clone().into_py(py)),");
    let e = field_entry(f);
    assert(e.take(2) =~= "(\""@);
    assert(e.subrange(2, 2 + f.len() as int) =~= f);
    assert(e.subrange(2 + f.len() as int, 9 + f.len() as int) =~= "\", slf."@);
    assert(e.subrange(9 + f.len() as int, 9 + 2 * (f.len() as int)) =~= f);
    assert(e.skip(9 + 2 * (f.len() as int)) =~= ".clone().into_py(py)),"@);
}

} // verus!
