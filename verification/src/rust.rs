use vstd::prelude::*;
use crate::format::{
    CommentsView, ContainerFormat, DocComments, ExtView, ExternalDefinitions, Format, Named,
    Registry, VariantFormat, container_valid, cv_at, cv_has, cv_wf, dc_view,
    enum_indices_contiguous, ext_view, fields_finalized, format_finalized, formats_finalized,
    variant_finalized, views,
};
use crate::strutil::{
    clone_strings, contains_name, dec_str, indent_text, indented, join_comma, join_comma_from,
    make_spaces, replace_s, replace_text, spaces, trim_text, trimmed, usize_dec,
};
use crate::analyzer::{
    dep_map_view, distinct_keys, first_dangling, key_at, m_has_key, map_view, sort_order_of,
};
use crate::Error;

verus! {

// ---------------------------------------------------------------------------
// Validation: a container is rejected before any text is produced when an
// enum's indices are not exactly 0..N-1, or when an unresolved placeholder
// is still present.
// ---------------------------------------------------------------------------

/// The error a container is rejected with, if any: non-contiguous enum
/// indices are reported first, then a leftover placeholder.
pub open spec fn container_error(c: ContainerFormat) -> Option<Error> {
    match c {
        ContainerFormat::UnitStruct => None,
        ContainerFormat::NewTypeStruct(inner) => if format_finalized(*inner) {
            None
        } else {
            Some(Error::UnresolvedPlaceholder)
        },
        ContainerFormat::TupleStruct(inners) => if formats_finalized(inners@) {
            None
        } else {
            Some(Error::UnresolvedPlaceholder)
        },
        ContainerFormat::Struct(fields) => if fields_finalized(fields@) {
            None
        } else {
            Some(Error::UnresolvedPlaceholder)
        },
        ContainerFormat::Enum(entries) => if !enum_indices_contiguous(entries@) {
            Some(Error::NonContiguousEnumIndices)
        } else if !variants_finalized(entries@) {
            Some(Error::UnresolvedPlaceholder)
        } else {
            None
        },
    }
}

pub open spec fn variants_finalized(entries: Seq<(u32, Named<VariantFormat>)>) -> bool {
    forall|i: int| 0 <= i < entries.len() ==> variant_finalized(#[trigger] entries[i].1.value)
}

/// The first rejection among the registry entries from `k` on, in registry
/// order.
pub open spec fn first_invalid(entries: Seq<Named<ContainerFormat>>, k: int) -> Option<Error>
    decreases entries.len() - k,
{
    if k < 0 || k >= entries.len() {
        None
    } else if container_error(entries[k].value) is Some {
        container_error(entries[k].value)
    } else {
        first_invalid(entries, k + 1)
    }
}

fn check_format(f: &Format) -> (r: bool)
    ensures
        r == format_finalized(*f),
    decreases f, 0int,
{
    match f {
        Format::Variable => false,
        Format::Option(inner) => check_format(inner),
        Format::Sequence(inner) => check_format(inner),
        Format::Mapping { key, value } => check_format(key) && check_format(value),
        Format::Tuple(inners) => check_formats(inners, 0),
        Format::TupleArray { content, size } => check_format(content),
        _ => true,
    }
}

fn check_formats(fs: &Vec<Format>, k: usize) -> (r: bool)
    requires
        k <= fs@.len(),
    ensures
        r == (forall|i: int| k <= i < fs@.len() ==> format_finalized(#[trigger] fs@[i])),
    decreases fs@, fs@.len() - k,
{
    if k >= fs.len() {
        true
    } else {
        check_format(&fs[k]) && check_formats(fs, k + 1)
    }
}

fn check_fields(fields: &Vec<Named<Format>>, k: usize) -> (r: bool)
    requires
        k <= fields@.len(),
    ensures
        r == (forall|i: int|
            k <= i < fields@.len() ==> format_finalized(#[trigger] fields@[i].value)),
    decreases fields@.len() - k,
{
    if k >= fields.len() {
        true
    } else {
        check_format(&fields[k].value) && check_fields(fields, k + 1)
    }
}

fn check_variant(v: &VariantFormat) -> (r: bool)
    ensures
        r == variant_finalized(*v),
{
    match v {
        VariantFormat::Unit => true,
        VariantFormat::NewType(inner) => check_format(inner),
        VariantFormat::Tuple(inners) => check_formats(inners, 0),
        VariantFormat::Struct(fields) => check_fields(fields, 0),
        VariantFormat::Variable => false,
    }
}

fn check_variants(entries: &Vec<(u32, Named<VariantFormat>)>, k: usize) -> (r: bool)
    requires
        k <= entries@.len(),
    ensures
        r == (forall|i: int|
            k <= i < entries@.len() ==> variant_finalized(#[trigger] entries@[i].1.value)),
    decreases entries@.len() - k,
{
    if k >= entries.len() {
        true
    } else {
        check_variant(&entries[k].1.value) && check_variants(entries, k + 1)
    }
}

fn check_enum_indices(entries: &Vec<(u32, Named<VariantFormat>)>) -> (r: bool)
    ensures
        r == enum_indices_contiguous(entries@),
{
    let mut i: usize = 0;
    while i < entries.len()
        invariant
            i <= entries@.len(),
            forall|k: int| 0 <= k < i ==> (#[trigger] entries@[k].0) as int == k,
        decreases entries@.len() - i,
    {
        if i > u32::MAX as usize {
            proof {
                assert(((entries@[i as int].0) as int) < (i as int));
            }
            return false;
        }
        if entries[i].0 != i as u32 {
            return false;
        }
        i = i + 1;
    }
    true
}

/// Checks one container; the result is exactly the rejection the container
/// deserves, if any.
pub fn check_container(c: &ContainerFormat) -> (r: Option<Error>)
    ensures
        r == container_error(*c),
        r is None <==> container_valid(*c),
{
    match c {
        ContainerFormat::UnitStruct => None,
        ContainerFormat::NewTypeStruct(inner) => if check_format(inner) {
            None
        } else {
            Some(Error::UnresolvedPlaceholder)
        },
        ContainerFormat::TupleStruct(inners) => if check_formats(inners, 0) {
            None
        } else {
            Some(Error::UnresolvedPlaceholder)
        },
        ContainerFormat::Struct(fields) => if check_fields(fields, 0) {
            None
        } else {
            Some(Error::UnresolvedPlaceholder)
        },
        ContainerFormat::Enum(entries) => if !check_enum_indices(entries) {
            Some(Error::NonContiguousEnumIndices)
        } else if !check_variants(entries, 0) {
            Some(Error::UnresolvedPlaceholder)
        } else {
            None
        },
    }
}

fn first_invalid_exec(registry: &Registry, k: usize) -> (r: Option<Error>)
    requires
        k <= registry.entries@.len(),
    ensures
        r == first_invalid(registry.entries@, k as int),
    decreases registry.entries@.len() - k,
{
    if k >= registry.entries.len() {
        None
    } else {
        match check_container(&registry.entries[k].value) {
            Some(e) => Some(e),
            None => first_invalid_exec(registry, k + 1),
        }
    }
}

// ---------------------------------------------------------------------------
// Type rendering, with the per-position indirection policy: a reference in
// a hard-dependency position whose target is not yet known is rendered
// through a box; references inside sequences and associative containers
// are always rendered directly.
// ---------------------------------------------------------------------------

/// The view of an optional known set.
pub open spec fn osv(ks: Option<&Vec<String>>) -> Option<Seq<Seq<char>>> {
    match ks {
        Some(v) => Some(views(v@)),
        None => None,
    }
}

/// The Rust rendering of a format. With a known set, a reference to a name
/// outside it is boxed; without one, every reference is direct.
pub open spec fn quote_type_s(f: Format, ks: Option<Seq<Seq<char>>>) -> Seq<char>
    decreases f, 0int,
{
    match f {
        Format::TypeName(x) => if ks is Some && !ks->Some_0.contains(x@) {
            "Box<"@ + x@ + ">"@
        } else {
            x@
        },
        Format::Unit => "()"@,
        Format::Bool => "bool"@,
        Format::I8 => "i8"@,
        Format::I16 => "i16"@,
        Format::I32 => "i32"@,
        Format::I64 => "i64"@,
        Format::I128 => "i128"@,
        Format::U8 => "u8"@,
        Format::U16 => "u16"@,
        Format::U32 => "u32"@,
        Format::U64 => "u64"@,
        Format::U128 => "u128"@,
        Format::F32 => "f32"@,
        Format::F64 => "f64"@,
        Format::Char => "char"@,
        Format::Str => "String"@,
        Format::Bytes => "Bytes"@,
        Format::Option(inner) => "Option<"@ + quote_type_s(*inner, ks) + ">"@,
        Format::Sequence(inner) => "Vec<"@ + quote_type_s(*inner, None) + ">"@,
        Format::Mapping { key, value } => "Map<"@ + quote_type_s(*key, None) + ", "@
            + quote_type_s(*value, None) + ">"@,
        Format::Tuple(inners) => "("@ + quote_types_from(inners@, 0, ks) + ")"@,
        Format::TupleArray { content, size } => "["@ + quote_type_s(*content, ks) + "; "@
            + dec_str(size as nat) + "]"@,
        Format::Variable => Seq::empty(),
    }
}

/// The renderings of the formats from `k` on, joined by a comma and a
/// space.
pub open spec fn quote_types_from(fs: Seq<Format>, k: int, ks: Option<Seq<Seq<char>>>) -> Seq<
    char,
>
    decreases fs, fs.len() - k,
{
    if k < 0 || k >= fs.len() {
        Seq::empty()
    } else if k == fs.len() - 1 {
        quote_type_s(fs[k], ks)
    } else {
        quote_type_s(fs[k], ks) + ", "@ + quote_types_from(fs, k + 1, ks)
    }
}

/// Renders one format as Rust source text.
pub fn quote_type(format: &Format, known_sizes: Option<&Vec<String>>) -> (r: String)
    requires
        format_finalized(*format),
    ensures
        r@ == quote_type_s(*format, osv(known_sizes)),
    decreases format, 0int,
{
    match format {
        Format::TypeName(x) => {
            let boxed = match known_sizes {
                Some(set) => !contains_name(set, x),
                None => false,
            };
            if boxed {
                let mut s = String::from_str("Box<");
                s.append(x.as_str());
                s.append(">");
                proof {
                    assert(s@ =~= "Box<"@ + x@ + ">"@);
                }
                s
            } else {
                x.clone()
            }
        },
        Format::Unit => String::from_str("()"),
        Format::Bool => String::from_str("bool"),
        Format::I8 => String::from_str("i8"),
        Format::I16 => String::from_str("i16"),
        Format::I32 => String::from_str("i32"),
        Format::I64 => String::from_str("i64"),
        Format::I128 => String::from_str("i128"),
        Format::U8 => String::from_str("u8"),
        Format::U16 => String::from_str("u16"),
        Format::U32 => String::from_str("u32"),
        Format::U64 => String::from_str("u64"),
        Format::U128 => String::from_str("u128"),
        Format::F32 => String::from_str("f32"),
        Format::F64 => String::from_str("f64"),
        Format::Char => String::from_str("char"),
        Format::Str => String::from_str("String"),
        Format::Bytes => String::from_str("Bytes"),
        Format::Option(inner) => {
            let mut s = String::from_str("Option<");
            let t = quote_type(inner, known_sizes);
            s.append(t.as_str());
            s.append(">");
            proof {
                assert(s@ =~= quote_type_s(*format, osv(known_sizes)));
            }
            s
        },
        Format::Sequence(inner) => {
            let mut s = String::from_str("Vec<");
            let t = quote_type(inner, None);
            s.append(t.as_str());
            s.append(">");
            proof {
                assert(s@ =~= quote_type_s(*format, osv(known_sizes)));
            }
            s
        },
        Format::Mapping { key, value } => {
            let mut s = String::from_str("Map<");
            let tk = quote_type(key, None);
            s.append(tk.as_str());
            s.append(", ");
            let tv = quote_type(value, None);
            s.append(tv.as_str());
            s.append(">");
            proof {
                assert(s@ =~= quote_type_s(*format, osv(known_sizes)));
            }
            s
        },
        Format::Tuple(inners) => {
            let mut s = String::from_str("(");
            let t = quote_types(inners, 0, known_sizes);
            s.append(t.as_str());
            s.append(")");
            proof {
                assert(s@ =~= quote_type_s(*format, osv(known_sizes)));
            }
            s
        },
        Format::TupleArray { content, size } => {
            let mut s = String::from_str("[");
            let t = quote_type(content, known_sizes);
            s.append(t.as_str());
            s.append("; ");
            let d = usize_dec(*size);
            s.append(d.as_str());
            s.append("]");
            proof {
                assert(s@ =~= quote_type_s(*format, osv(known_sizes)));
            }
            s
        },
        Format::Variable => {
            proof {
                assert(false);
            }
            String::new()
        },
    }
}

/// Renders a list of formats, joined by a comma and a space.
pub fn quote_types(formats: &Vec<Format>, k: usize, known_sizes: Option<&Vec<String>>) -> (r:
    String)
    requires
        k <= formats@.len(),
        formats_finalized(formats@),
    ensures
        r@ == quote_types_from(formats@, k as int, osv(known_sizes)),
    decreases formats@, formats@.len() - k,
{
    if k >= formats.len() {
        String::new()
    } else if k == formats.len() - 1 {
        quote_type(&formats[k], known_sizes)
    } else {
        let mut s = quote_type(&formats[k], known_sizes);
        s.append(", ");
        let rest = quote_types(formats, k + 1, known_sizes);
        s.append(rest.as_str());
        proof {
            assert(s@ =~= quote_types_from(formats@, k as int, osv(known_sizes)));
        }
        s
    }
}

// ---------------------------------------------------------------------------
// Doc comments: looked up by dotted qualified path and emitted immediately
// above the element the path names, nowhere else.
// ---------------------------------------------------------------------------

/// The comment prefix for one indentation level.
pub open spec fn comment_prefix(ind: nat) -> Seq<char> {
    spaces(ind) + "/// "@
}

/// What an empty line inside a comment becomes.
pub open spec fn comment_empty_line(ind: nat) -> Seq<char> {
    "\n"@ + spaces(ind) + "///\n"@
}

/// The text emitted for the qualified path: nothing when no comment is
/// attached; otherwise a newline and the comment, each line prefixed,
/// empty lines kept without trailing spaces.
pub open spec fn output_comment_s(comments: CommentsView, ind: nat, path: Seq<Seq<char>>) -> Seq<
    char,
> {
    if cv_has(comments, path) {
        "\n"@ + replace_s(
            indented(cv_at(comments, path), comment_prefix(ind)),
            "\n\n"@,
            comment_empty_line(ind),
        )
    } else {
        Seq::empty()
    }
}

fn string_lists_equal(a: &Vec<String>, b: &Vec<String>) -> (r: bool)
    ensures
        r == (views(a@) == views(b@)),
{
    if a.len() != b.len() {
        proof {
            assert(views(a@).len() != views(b@).len());
        }
        return false;
    }
    let mut i: usize = 0;
    while i < a.len()
        invariant
            i <= a@.len(),
            a@.len() == b@.len(),
            forall|k: int| 0 <= k < i ==> views(a@)[k] == views(b@)[k],
        decreases a@.len() - i,
    {
        if !(a[i] == b[i]) {
            proof {
                assert(views(a@)[i as int] == a@[i as int]@);
                assert(views(b@)[i as int] == b@[i as int]@);
            }
            return false;
        }
        i = i + 1;
    }
    proof {
        assert(views(a@) =~= views(b@));
    }
    true
}

fn find_comment<'a>(comments: &'a DocComments, qualified: &Vec<String>) -> (r: Option<&'a String>)
    requires
        cv_wf(dc_view(*comments)),
    ensures
        match r {
            Some(doc) => cv_has(dc_view(*comments), views(qualified@)) && doc@ == cv_at(
                dc_view(*comments),
                views(qualified@),
            ),
            None => !cv_has(dc_view(*comments), views(qualified@)),
        },
{
    let mut i: usize = 0;
    while i < comments.entries.len()
        invariant
            cv_wf(dc_view(*comments)),
            i <= comments.entries@.len(),
            forall|k: int| 0 <= k < i ==> (#[trigger] dc_view(*comments)[k]).0 != views(
                qualified@,
            ),
        decreases comments.entries@.len() - i,
    {
        if string_lists_equal(&comments.entries[i].0, qualified) {
            proof {
                assert(dc_view(*comments)[i as int].0 == views(qualified@));
                let j = choose|j: int|
                    0 <= j < dc_view(*comments).len() && (#[trigger] dc_view(*comments)[j]).0
                        == views(qualified@);
                assert(j == i as int);
                assert(dc_view(*comments)[j].1 == comments.entries@[i as int].1@);
            }
            return Some(&comments.entries[i].1);
        }
        proof {
            assert(dc_view(*comments)[i as int].0 == views(comments.entries@[i as int].0@));
        }
        i = i + 1;
    }
    proof {
        assert(!cv_has(dc_view(*comments), views(qualified@)));
    }
    None
}

/// Emits the comment attached to the qualified path, if any, immediately
/// above the element about to be rendered.
pub fn output_comment(
    out: &mut String,
    comments: &DocComments,
    indentation: usize,
    qualified: &Vec<String>,
)
    requires
        cv_wf(dc_view(*comments)),
    ensures
        final(out)@ == old(out)@ + output_comment_s(
            dc_view(*comments),
            indentation as nat,
            views(qualified@),
        ),
{
    match find_comment(comments, qualified) {
        None => {
            proof {
                assert(final(out)@ =~= old(out)@ + output_comment_s(
                    dc_view(*comments),
                    indentation as nat,
                    views(qualified@),
                ));
            }
        },
        Some(doc) => {
            let mut prefix = make_spaces(indentation);
            prefix.append("/// ");
            let mut empty_line = String::from_str("\n");
            let sp = make_spaces(indentation);
            empty_line.append(sp.as_str());
            empty_line.append("///\n");
            let text = indent_text(doc.as_str(), prefix.as_str());
            proof {
                reveal_strlit("\n\n");
            }
            let replaced = replace_text(text.as_str(), "\n\n", empty_line.as_str());
            out.append("\n");
            out.append(replaced.as_str());
            proof {
                assert(prefix@ =~= comment_prefix(indentation as nat));
                assert(empty_line@ =~= comment_empty_line(indentation as nat));
                assert(final(out)@ =~= old(out)@ + output_comment_s(
                    dc_view(*comments),
                    indentation as nat,
                    views(qualified@),
                ));
            }
        },
    }
}

// ---------------------------------------------------------------------------
// Container rendering.
// ---------------------------------------------------------------------------

/// The derive attribute line used in the runtime-integrated profile.
pub open spec fn derive_line() -> Seq<char> {
    "#[derive(Serialize, Deserialize, Clone, Debug, PartialEq, PartialOrd)]\n"@
}

/// The struct fields from `k` on, one per line, each preceded by its doc
/// comment, if any.
pub open spec fn output_fields_s(
    comments: CommentsView,
    ind: nat,
    base: Seq<Seq<char>>,
    fields: Seq<Named<Format>>,
    k: int,
    is_pub: bool,
    ks: Seq<Seq<char>>,
) -> Seq<char>
    decreases fields.len() - k,
{
    if k < 0 || k >= fields.len() {
        Seq::empty()
    } else {
        output_comment_s(comments, 4, base.push(fields[k].name@)) + spaces(ind) + (if is_pub {
            " pub "@
        } else {
            Seq::empty()
        }) + fields[k].name@ + ": "@ + quote_type_s(fields[k].value, Some(ks)) + ",\n"@
            + output_fields_s(comments, ind, base, fields, k + 1, is_pub, ks)
    }
}

pub fn output_fields(
    out: &mut String,
    comments: &DocComments,
    indentation: usize,
    base: &Vec<String>,
    fields: &Vec<Named<Format>>,
    k: usize,
    is_pub: bool,
    known_sizes: &Vec<String>,
)
    requires
        cv_wf(dc_view(*comments)),
        fields_finalized(fields@),
        k <= fields@.len(),
    ensures
        final(out)@ == old(out)@ + output_fields_s(
            dc_view(*comments),
            indentation as nat,
            views(base@),
            fields@,
            k as int,
            is_pub,
            views(known_sizes@),
        ),
    decreases fields@.len() - k,
{
    if k >= fields.len() {
        proof {
            assert(final(out)@ =~= old(out)@ + Seq::<char>::empty());
        }
        return ;
    }
    let mut qualified = crate::strutil::clone_strings(base);
    qualified.push(fields[k].name.clone());
    proof {
        assert(views(qualified@) =~= views(base@).push(fields@[k as int].name@));
    }
    output_comment(out, comments, 4, &qualified);
    let sp = make_spaces(indentation);
    out.append(sp.as_str());
    if is_pub {
        out.append(" pub ");
    }
    out.append(fields[k].name.as_str());
    out.append(": ");
    let t = quote_type(&fields[k].value, Some(known_sizes));
    out.append(t.as_str());
    out.append(",\n");
    output_fields(out, comments, indentation, base, fields, k + 1, is_pub, known_sizes);
    proof {
        assert(final(out)@ =~= old(out)@ + output_fields_s(
            dc_view(*comments),
            indentation as nat,
            views(base@),
            fields@,
            k as int,
            is_pub,
            views(known_sizes@),
        ));
    }
}

/// One enum variant: a unit, newtype, tuple or struct alternative, always
/// with an explicit payload form.
pub open spec fn output_variant_s(
    comments: CommentsView,
    base: Seq<char>,
    name: Seq<char>,
    variant: VariantFormat,
    ks: Seq<Seq<char>>,
) -> Seq<char> {
    match variant {
        VariantFormat::Unit => "    "@ + name + ",\n"@,
        VariantFormat::NewType(inner) => "    "@ + name + "("@ + quote_type_s(*inner, Some(ks))
            + "),\n"@,
        VariantFormat::Tuple(inners) => "    "@ + name + "("@ + quote_types_from(
            inners@,
            0,
            Some(ks),
        ) + "),\n"@,
        VariantFormat::Struct(fields) => "    "@ + name + " {\n"@ + output_fields_s(
            comments,
            8,
            seq![base, name],
            fields@,
            0,
            false,
            ks,
        ) + "    },\n"@,
        VariantFormat::Variable => Seq::empty(),
    }
}

pub fn output_variant(
    out: &mut String,
    comments: &DocComments,
    base: &String,
    name: &String,
    variant: &VariantFormat,
    known_sizes: &Vec<String>,
)
    requires
        cv_wf(dc_view(*comments)),
        variant_finalized(*variant),
    ensures
        final(out)@ == old(out)@ + output_variant_s(
            dc_view(*comments),
            base@,
            name@,
            *variant,
            views(known_sizes@),
        ),
{
    match variant {
        VariantFormat::Unit => {
            out.append("    ");
            out.append(name.as_str());
            out.append(",\n");
            proof {
                assert(final(out)@ =~= old(out)@ + ("    "@ + name@ + ",\n"@));
            }
        },
        VariantFormat::NewType(inner) => {
            out.append("    ");
            out.append(name.as_str());
            out.append("(");
            let t = quote_type(inner, Some(known_sizes));
            out.append(t.as_str());
            out.append("),\n");
            proof {
                assert(final(out)@ =~= old(out)@ + output_variant_s(
                    dc_view(*comments),
                    base@,
                    name@,
                    *variant,
                    views(known_sizes@),
                ));
            }
        },
        VariantFormat::Tuple(inners) => {
            out.append("    ");
            out.append(name.as_str());
            out.append("(");
            let t = quote_types(inners, 0, Some(known_sizes));
            out.append(t.as_str());
            out.append("),\n");
            proof {
                assert(final(out)@ =~= old(out)@ + output_variant_s(
                    dc_view(*comments),
                    base@,
                    name@,
                    *variant,
                    views(known_sizes@),
                ));
            }
        },
        VariantFormat::Struct(fields) => {
            out.append("    ");
            out.append(name.as_str());
            out.append(" {\n");
            let mut inner_base: Vec<String> = Vec::new();
            inner_base.push(base.clone());
            inner_base.push(name.clone());
            proof {
                assert(views(inner_base@) =~= seq![base@, name@]);
            }
            output_fields(out, comments, 8, &inner_base, fields, 0, false, known_sizes);
            out.append("    },\n");
            proof {
                assert(final(out)@ =~= old(out)@ + output_variant_s(
                    dc_view(*comments),
                    base@,
                    name@,
                    *variant,
                    views(known_sizes@),
                ));
            }
        },
        VariantFormat::Variable => {
            proof {
                assert(false);
            }
        },
    }
}

/// The enum variants from `k` on, in index order, each preceded by its doc
/// comment, if any.
pub open spec fn output_variants_s(
    comments: CommentsView,
    base: Seq<char>,
    entries: Seq<(u32, Named<VariantFormat>)>,
    k: int,
    ks: Seq<Seq<char>>,
) -> Seq<char>
    decreases entries.len() - k,
{
    if k < 0 || k >= entries.len() {
        Seq::empty()
    } else {
        output_comment_s(comments, 4, seq![base, entries[k].1.name@]) + output_variant_s(
            comments,
            base,
            entries[k].1.name@,
            entries[k].1.value,
            ks,
        ) + output_variants_s(comments, base, entries, k + 1, ks)
    }
}

pub fn output_variants(
    out: &mut String,
    comments: &DocComments,
    base: &String,
    entries: &Vec<(u32, Named<VariantFormat>)>,
    k: usize,
    known_sizes: &Vec<String>,
)
    requires
        cv_wf(dc_view(*comments)),
        variants_finalized(entries@),
        k <= entries@.len(),
    ensures
        final(out)@ == old(out)@ + output_variants_s(
            dc_view(*comments),
            base@,
            entries@,
            k as int,
            views(known_sizes@),
        ),
    decreases entries@.len() - k,
{
    if k >= entries.len() {
        proof {
            assert(final(out)@ =~= old(out)@ + Seq::<char>::empty());
        }
        return ;
    }
    let mut qualified: Vec<String> = Vec::new();
    qualified.push(base.clone());
    qualified.push(entries[k].1.name.clone());
    proof {
        assert(views(qualified@) =~= seq![base@, entries@[k as int].1.name@]);
    }
    output_comment(out, comments, 4, &qualified);
    output_variant(out, comments, base, &entries[k].1.name, &entries[k].1.value, known_sizes);
    output_variants(out, comments, base, entries, k + 1, known_sizes);
    proof {
        assert(final(out)@ =~= old(out)@ + output_variants_s(
            dc_view(*comments),
            base@,
            entries@,
            k as int,
            views(known_sizes@),
        ));
    }
}

/// One full container definition: its doc comment, the derive line in the
/// runtime-integrated profile, the visibility prefix, and its body; unit
/// shapes keep an explicit empty-payload form.
pub open spec fn output_container_s(
    comments: CommentsView,
    with_derive: bool,
    track_vis: bool,
    name: Seq<char>,
    format: ContainerFormat,
    ks: Seq<Seq<char>>,
) -> Seq<char> {
    let head = output_comment_s(comments, 0, seq![name]) + (if with_derive {
        derive_line()
    } else {
        Seq::empty()
    }) + (if track_vis {
        "pub "@
    } else {
        Seq::empty()
    });
    match format {
        ContainerFormat::UnitStruct => head + "struct "@ + name + ";\n\n"@,
        ContainerFormat::NewTypeStruct(inner) => head + "struct "@ + name + "("@ + (if track_vis {
            "pub "@
        } else {
            Seq::empty()
        }) + quote_type_s(*inner, Some(ks)) + ");\n\n"@,
        ContainerFormat::TupleStruct(inners) => head + "struct "@ + name + "("@
            + quote_types_from(inners@, 0, Some(ks)) + ");\n\n"@,
        ContainerFormat::Struct(fields) => head + "struct "@ + name + " {\n"@ + output_fields_s(
            comments,
            4,
            seq![name],
            fields@,
            0,
            track_vis,
            ks,
        ) + "}\n\n"@,
        ContainerFormat::Enum(entries) => head + "enum "@ + name + " {\n"@ + output_variants_s(
            comments,
            name,
            entries@,
            0,
            ks,
        ) + "}\n\n"@,
    }
}

#[verifier::rlimit(80)]
pub fn output_container(
    out: &mut String,
    comments: &DocComments,
    with_derive_macros: bool,
    track_visibility: bool,
    name: &String,
    format: &ContainerFormat,
    known_sizes: &Vec<String>,
)
    requires
        cv_wf(dc_view(*comments)),
        container_valid(*format),
    ensures
        final(out)@ == old(out)@ + output_container_s(
            dc_view(*comments),
            with_derive_macros,
            track_visibility,
            name@,
            *format,
            views(known_sizes@),
        ),
{
    let mut qualified: Vec<String> = Vec::new();
    qualified.push(name.clone());
    proof {
        assert(views(qualified@) =~= seq![name@]);
    }
    output_comment(out, comments, 0, &qualified);
    if with_derive_macros {
        out.append("#[derive(Serialize, Deserialize, Clone, Debug, PartialEq, PartialOrd)]\n");
    }
    if track_visibility {
        out.append("pub ");
    }
    match format {
        ContainerFormat::UnitStruct => {
            out.append("struct ");
            out.append(name.as_str());
            out.append(";\n\n");
            proof {
                assert(final(out)@ =~= old(out)@ + output_container_s(
                    dc_view(*comments),
                    with_derive_macros,
                    track_visibility,
                    name@,
                    *format,
                    views(known_sizes@),
                ));
            }
        },
        ContainerFormat::NewTypeStruct(inner) => {
            out.append("struct ");
            out.append(name.as_str());
            out.append("(");
            if track_visibility {
                out.append("pub ");
            }
            let t = quote_type(inner, Some(known_sizes));
            out.append(t.as_str());
            out.append(");\n\n");
            proof {
                assert(final(out)@ =~= old(out)@ + output_container_s(
                    dc_view(*comments),
                    with_derive_macros,
                    track_visibility,
                    name@,
                    *format,
                    views(known_sizes@),
                ));
            }
        },
        ContainerFormat::TupleStruct(inners) => {
            out.append("struct ");
            out.append(name.as_str());
            out.append("(");
            let t = quote_types(inners, 0, Some(known_sizes));
            out.append(t.as_str());
            out.append(");\n\n");
            proof {
                assert(final(out)@ =~= old(out)@ + output_container_s(
                    dc_view(*comments),
                    with_derive_macros,
                    track_visibility,
                    name@,
                    *format,
                    views(known_sizes@),
                ));
            }
        },
        ContainerFormat::Struct(fields) => {
            out.append("struct ");
            out.append(name.as_str());
            out.append(" {\n");
            output_fields(out, comments, 4, &qualified, fields, 0, track_visibility, known_sizes);
            out.append("}\n\n");
            proof {
                assert(final(out)@ =~= old(out)@ + output_container_s(
                    dc_view(*comments),
                    with_derive_macros,
                    track_visibility,
                    name@,
                    *format,
                    views(known_sizes@),
                ));
            }
        },
        ContainerFormat::Enum(entries) => {
            out.append("enum ");
            out.append(name.as_str());
            out.append(" {\n");
            output_variants(out, comments, name, entries, 0, known_sizes);
            out.append("}\n\n");
            proof {
                assert(final(out)@ =~= old(out)@ + output_container_s(
                    dc_view(*comments),
                    with_derive_macros,
                    track_visibility,
                    name@,
                    *format,
                    views(known_sizes@),
                ));
            }
        },
    }
}

// ---------------------------------------------------------------------------
// Preamble: type aliases and imports, derived from which built-in names
// the external definitions already supply.
// ---------------------------------------------------------------------------

/// All externally supplied type names from module entry `k` on, flattened
/// in entry order.
pub open spec fn ext_names_from(ext: ExtView, k: int) -> Seq<Seq<char>>
    decreases ext.len() - k,
{
    if k < 0 || k >= ext.len() {
        Seq::empty()
    } else {
        ext[k].1 + ext_names_from(ext, k + 1)
    }
}

/// One `use` line per non-empty module name; the empty module name means
/// the user supplies those definitions manually, so no import is emitted.
pub open spec fn use_lines_from(ext: ExtView, k: int) -> Seq<char>
    decreases ext.len() - k,
{
    if k < 0 || k >= ext.len() {
        Seq::empty()
    } else {
        (if ext[k].0.len() == 0 {
            Seq::empty()
        } else {
            "use "@ + ext[k].0 + "::{"@ + join_comma_from(ext[k].1, 0) + "};\n"@
        }) + use_lines_from(ext, k + 1)
    }
}

/// The per-file header: built-in aliases are declared only when no
/// external definition already supplies them.
pub open spec fn preamble_s(with_derive: bool, ext: ExtView) -> Seq<char> {
    let names = ext_names_from(ext, 0);
    "#![allow(unused_imports)]\n"@ + (if !names.contains("Map"@) {
        "use std::collections::BTreeMap as Map;\n"@
    } else {
        Seq::empty()
    }) + (if with_derive {
        "use serde::{Serialize, Deserialize};\n"@
    } else {
        Seq::empty()
    }) + (if with_derive && !names.contains("Bytes"@) {
        "use serde_bytes::ByteBuf as Bytes;\n"@
    } else {
        Seq::empty()
    }) + use_lines_from(ext, 0) + "\n"@ + (if !with_derive && !names.contains("Bytes"@) {
        "type Bytes = Vec<u8>;\n\n"@
    } else {
        Seq::empty()
    })
}

fn flatten_from(external_definitions: &ExternalDefinitions, k: usize) -> (r: Vec<String>)
    requires
        k <= external_definitions.entries@.len(),
    ensures
        views(r@) == ext_names_from(ext_view(*external_definitions), k as int),
    decreases external_definitions.entries@.len() - k,
{
    if k >= external_definitions.entries.len() {
        let r: Vec<String> = Vec::new();
        proof {
            assert(views(r@) =~= ext_names_from(ext_view(*external_definitions), k as int));
        }
        r
    } else {
        let mut head = clone_strings(&external_definitions.entries[k].1);
        let mut rest = flatten_from(external_definitions, k + 1);
        head.append(&mut rest);
        proof {
            assert(ext_view(*external_definitions)[k as int].1 == views(
                external_definitions.entries@[k as int].1@,
            ));
            assert(views(head@) =~= ext_names_from(ext_view(*external_definitions), k as int));
        }
        head
    }
}

fn append_use_lines(out: &mut String, external_definitions: &ExternalDefinitions, k: usize)
    requires
        k <= external_definitions.entries@.len(),
    ensures
        final(out)@ == old(out)@ + use_lines_from(ext_view(*external_definitions), k as int),
    decreases external_definitions.entries@.len() - k,
{
    if k >= external_definitions.entries.len() {
        proof {
            assert(final(out)@ =~= old(out)@ + Seq::<char>::empty());
        }
        return ;
    }
    let module = &external_definitions.entries[k].0;
    if !module.as_str().is_empty() {
        out.append("use ");
        out.append(module.as_str());
        out.append("::{");
        let joined = join_comma(&external_definitions.entries[k].1, 0);
        out.append(joined.as_str());
        out.append("};\n");
    }
    append_use_lines(out, external_definitions, k + 1);
    proof {
        assert(ext_view(*external_definitions)[k as int].0 == external_definitions.entries@[
            k as int].0@);
        assert(ext_view(*external_definitions)[k as int].1 == views(
            external_definitions.entries@[k as int].1@,
        ));
        assert(final(out)@ =~= old(out)@ + use_lines_from(
            ext_view(*external_definitions),
            k as int,
        ));
    }
}

/// Emits the per-file header.
pub fn output_preamble(with_derive_macros: bool, external_definitions: &ExternalDefinitions) -> (r:
    String)
    ensures
        r@ == preamble_s(with_derive_macros, ext_view(*external_definitions)),
{
    let ext_names = flatten_from(external_definitions, 0);
    let mut out = String::from_str("#![allow(unused_imports)]\n");
    let map_name = String::from_str("Map");
    let bytes_name = String::from_str("Bytes");
    if !contains_name(&ext_names, &map_name) {
        out.append("use std::collections::BTreeMap as Map;\n");
    }
    if with_derive_macros {
        out.append("use serde::{Serialize, Deserialize};\n");
    }
    let has_bytes = contains_name(&ext_names, &bytes_name);
    if with_derive_macros && !has_bytes {
        out.append("use serde_bytes::ByteBuf as Bytes;\n");
    }
    append_use_lines(&mut out, external_definitions, 0);
    out.append("\n");
    if !with_derive_macros && !has_bytes {
        out.append("type Bytes = Vec<u8>;\n\n");
    }
    proof {
        assert(out@ =~= preamble_s(with_derive_macros, ext_view(*external_definitions)));
    }
    out
}

// ---------------------------------------------------------------------------
// Whole-registry emission.
// ---------------------------------------------------------------------------

fn get_container<'a>(registry: &'a Registry, name: &String) -> (r: Option<&'a ContainerFormat>)
    requires
        registry.wf(),
    ensures
        match r {
            Some(c) => registry.has_name(name@) && *c == registry.value_of(name@),
            None => !registry.has_name(name@),
        },
{
    let mut i: usize = 0;
    while i < registry.entries.len()
        invariant
            registry.wf(),
            i <= registry.entries@.len(),
            forall|k: int| 0 <= k < i ==> registry.names()[k] != name@,
        decreases registry.entries@.len() - i,
    {
        if registry.entries[i].name == *name {
            proof {
                assert(registry.names()[i as int] == name@);
                let j = choose|j: int|
                    0 <= j < registry.entries@.len() && registry.entries@[j].name@ == name@;
                assert(registry.names()[j] == name@);
                assert(j == i as int);
            }
            return Some(&registry.entries[i].value);
        }
        proof {
            assert(registry.names()[i as int] == registry.entries@[i as int].name@);
        }
        i = i + 1;
    }
    proof {
        assert(!registry.names().contains(name@));
    }
    None
}

/// The containers named by `order` from position `k` on, each rendered
/// against the known set so far; a container's name becomes known right
/// after its definition.
pub open spec fn output_containers_from(
    registry: Registry,
    comments: CommentsView,
    with_derive: bool,
    order: Seq<Seq<char>>,
    k: int,
    known: Seq<Seq<char>>,
) -> Seq<char>
    decreases order.len() - k,
{
    if k < 0 || k >= order.len() {
        Seq::empty()
    } else {
        output_container_s(
            comments,
            with_derive,
            true,
            order[k],
            registry.value_of(order[k]),
            known,
        ) + output_containers_from(
            registry,
            comments,
            with_derive,
            order,
            k + 1,
            known.push(order[k]),
        )
    }
}

fn render_containers(
    out: &mut String,
    registry: &Registry,
    comments: &DocComments,
    with_derive_macros: bool,
    order: &Vec<String>,
    k: usize,
    known: &mut Vec<String>,
)
    requires
        registry.wf(),
        registry.all_valid(),
        cv_wf(dc_view(*comments)),
        k <= order@.len(),
        forall|j: int| k <= j < order@.len() ==> registry.has_name(#[trigger] views(order@)[j]),
    ensures
        final(out)@ == old(out)@ + output_containers_from(
            *registry,
            dc_view(*comments),
            with_derive_macros,
            views(order@),
            k as int,
            views(old(known)@),
        ),
    decreases order@.len() - k,
{
    if k >= order.len() {
        proof {
            assert(final(out)@ =~= old(out)@ + Seq::<char>::empty());
        }
        return ;
    }
    proof {
        assert(views(order@)[k as int] == order@[k as int]@);
    }
    let name = &order[k];
    match get_container(registry, name) {
        Some(container) => {
            proof {
                let i = choose|i: int|
                    0 <= i < registry.entries@.len() && registry.entries@[i].name@ == name@;
                assert(container_valid(registry.entries@[i].value));
            }
            output_container(
                out,
                comments,
                with_derive_macros,
                true,
                name,
                container,
                known,
            );
            known.push(name.clone());
            proof {
                assert(views(known@) =~= views(old(known)@).push(views(order@)[k as int]));
            }
            render_containers(out, registry, comments, with_derive_macros, order, k + 1, known);
            proof {
                assert(final(out)@ =~= old(out)@ + output_containers_from(
                    *registry,
                    dc_view(*comments),
                    with_derive_macros,
                    views(order@),
                    k as int,
                    views(old(known)@),
                ));
            }
        },
        None => {
            proof {
                assert(false);
            }
        },
    }
}

proof fn lemma_first_invalid_none(entries: Seq<Named<ContainerFormat>>, k: int)
    requires
        first_invalid(entries, k) is None,
        0 <= k <= entries.len(),
    ensures
        forall|i: int| k <= i < entries.len() ==> container_valid(#[trigger] entries[i].value),
    decreases entries.len() - k,
{
    if k < entries.len() {
        lemma_first_invalid_none(entries, k + 1);
    }
}

/// The complete generated output: the preamble, then every container in
/// the analyzer's emission order.
pub open spec fn output_text_s(
    with_derive: bool,
    registry: Registry,
    ext: ExtView,
    comments: CommentsView,
) -> Seq<char> {
    preamble_s(with_derive, ext) + output_containers_from(
        registry,
        comments,
        with_derive,
        sort_order_of(dep_map_view(registry)),
        0,
        ext_names_from(ext, 0),
    )
}

/// Generates Rust container definitions for the whole registry. Every
/// reference must resolve to a registry entry or an external definition,
/// every enum must use indices exactly `0..N-1`, and no placeholder may
/// remain; the first violation, in registry order, aborts the run before
/// any text is produced. On success the text is exactly the preamble
/// followed by every container in the analyzer's order.
pub fn output_with_external_dependencies_and_comments(
    with_derive_macros: bool,
    registry: &Registry,
    external_definitions: &ExternalDefinitions,
    comments: &DocComments,
) -> (r: Result<String, Error>)
    requires
        registry.wf(),
        cv_wf(dc_view(*comments)),
    ensures
        r is Ok <==> (first_dangling(
            *registry,
            ext_names_from(ext_view(*external_definitions), 0),
        ) is None && first_invalid(registry.entries@, 0) is None),
        r is Ok ==> r->Ok_0@ == output_text_s(
            with_derive_macros,
            *registry,
            ext_view(*external_definitions),
            dc_view(*comments),
        ),
        first_dangling(*registry, ext_names_from(ext_view(*external_definitions), 0)) is Some
            ==> r is Err && crate::is_dangling_error(
            r->Err_0,
            first_dangling(*registry, ext_names_from(ext_view(*external_definitions), 0))->Some_0,
        ),
        first_dangling(*registry, ext_names_from(ext_view(*external_definitions), 0)) is None
            && first_invalid(registry.entries@, 0) is Some ==> r == Result::<String, Error>::Err(
            first_invalid(registry.entries@, 0)->Some_0,
        ),
{
    let external_names = flatten_from(external_definitions, 0);
    let map = match crate::analyzer::get_dependency_map_with_external_dependencies(
        registry,
        &external_names,
    ) {
        Result::Err(e) => {
            return Result::Err(e);
        },
        Result::Ok(map) => map,
    };
    match first_invalid_exec(registry, 0) {
        Some(e) => Result::Err(e),
        None => {
            proof {
                assert forall|i: int, j: int|
                    0 <= i < j < map_view(map@).len() implies key_at(map_view(map@), i) != key_at(
                    map_view(map@),
                    j,
                ) by {
                    assert(key_at(dep_map_view(*registry), i) == registry.names()[i]);
                    assert(key_at(dep_map_view(*registry), j) == registry.names()[j]);
                }
                assert(distinct_keys(map_view(map@)));
            }
            let order = crate::analyzer::best_effort_topological_sort(&map);
            proof {
                lemma_first_invalid_none(registry.entries@, 0);
                assert forall|j: int| 0 <= j < order@.len() implies registry.has_name(
                    #[trigger] views(order@)[j],
                ) by {
                    assert(m_has_key(map_view(map@), views(order@)[j]));
                    let i = choose|i: int|
                        0 <= i < map_view(map@).len() && key_at(map_view(map@), i) == views(
                            order@,
                        )[j];
                    assert(key_at(dep_map_view(*registry), i) == registry.names()[i]);
                    assert(registry.names().contains(views(order@)[j]));
                }
            }
            let mut out = output_preamble(with_derive_macros, external_definitions);
            let mut known = external_names;
            render_containers(
                &mut out,
                registry,
                comments,
                with_derive_macros,
                &order,
                0,
                &mut known,
            );
            proof {
                assert(views(order@) == sort_order_of(dep_map_view(*registry)));
                assert(out@ =~= output_text_s(
                    with_derive_macros,
                    *registry,
                    ext_view(*external_definitions),
                    dc_view(*comments),
                ));
            }
            Result::Ok(out)
        },
    }
}

/// Generates Rust container definitions with no external definitions and
/// no doc comments.
pub fn output(with_derive_macros: bool, registry: &Registry) -> (r: Result<String, Error>)
    requires
        registry.wf(),
    ensures
        r is Ok <==> (first_dangling(*registry, Seq::empty()) is None && first_invalid(
            registry.entries@,
            0,
        ) is None),
        r is Ok ==> r->Ok_0@ == output_text_s(
            with_derive_macros,
            *registry,
            Seq::empty(),
            Seq::empty(),
        ),
        first_dangling(*registry, Seq::empty()) is Some ==> r is Err && crate::is_dangling_error(
            r->Err_0,
            first_dangling(*registry, Seq::empty())->Some_0,
        ),
        first_dangling(*registry, Seq::empty()) is None && first_invalid(registry.entries@, 0)
            is Some ==> r == Result::<String, Error>::Err(
            first_invalid(registry.entries@, 0)->Some_0,
        ),
{
    let external_definitions = ExternalDefinitions::new();
    let comments = DocComments::new();
    let r = output_with_external_dependencies_and_comments(
        with_derive_macros,
        registry,
        &external_definitions,
        &comments,
    );
    proof {
        assert(ext_names_from(ext_view(external_definitions), 0) =~= Seq::<Seq<char>>::empty());
        assert(output_text_s(
            with_derive_macros,
            *registry,
            ext_view(external_definitions),
            dc_view(comments),
        ) == output_text_s(with_derive_macros, *registry, Seq::empty(), Seq::empty()));
    }
    r
}

// ---------------------------------------------------------------------------
// Per-container quotation, for documentation purposes.
// ---------------------------------------------------------------------------

fn quote_defs_from(
    registry: &Registry,
    comments: &DocComments,
    order: &Vec<String>,
    k: usize,
    known: &mut Vec<String>,
) -> (r: Vec<(String, String)>)
    requires
        registry.wf(),
        registry.all_valid(),
        cv_wf(dc_view(*comments)),
        k <= order@.len(),
        forall|j: int| k <= j < order@.len() ==> registry.has_name(#[trigger] views(order@)[j]),
    ensures
        r@.len() == order@.len() - k,
        forall|j: int|
            0 <= j < r@.len() ==> (#[trigger] r@[j]).0@ == views(order@)[k + j] && r@[j].1@
                == trimmed(
                output_container_s(
                    dc_view(*comments),
                    false,
                    false,
                    views(order@)[k + j],
                    registry.value_of(views(order@)[k + j]),
                    views(old(known)@) + views(order@).subrange(k as int, k + j),
                ),
            ) + "\n"@,
    decreases order@.len() - k,
{
    if k >= order.len() {
        let r: Vec<(String, String)> = Vec::new();
        return r;
    }
    proof {
        assert(views(order@)[k as int] == order@[k as int]@);
    }
    let name = &order[k];
    match get_container(registry, name) {
        Some(container) => {
            proof {
                let i = choose|i: int|
                    0 <= i < registry.entries@.len() && registry.entries@[i].name@ == name@;
                assert(container_valid(registry.entries@[i].value));
            }
            let mut content = String::new();
            output_container(&mut content, comments, false, false, name, container, known);
            let mut text = trim_text(content.as_str());
            text.append("\n");
            proof {
                assert(views(known@) + views(order@).subrange(k as int, k as int) =~= views(
                    known@,
                ));
            }
            known.push(name.clone());
            proof {
                assert(views(known@) =~= views(old(known)@).push(views(order@)[k as int]));
            }
            let mut rest = quote_defs_from(registry, comments, order, k + 1, known);
            let mut result: Vec<(String, String)> = Vec::new();
            result.push((name.clone(), text));
            result.append(&mut rest);
            proof {
                assert forall|j: int| #![trigger result@[j]] 1 <= j < result@.len() implies views(
                    old(known)@,
                ).push(views(order@)[k as int]) + views(order@).subrange(k as int + 1, k + j)
                    =~= views(old(known)@) + views(order@).subrange(k as int, k + j) by {}
            }
            result
        },
        None => {
            proof {
                assert(false);
            }
            Vec::new()
        },
    }
}

/// For each container, a Rust definition suitable for documentation:
/// rendered without derive attributes and without visibility markers,
/// trimmed, with one trailing newline. Entries come in the analyzer's
/// emission order, keyed by container name.
pub fn quote_container_definitions_with_comments(
    registry: &Registry,
    comments: &DocComments,
) -> (r: Result<Vec<(String, String)>, Error>)
    requires
        registry.wf(),
        cv_wf(dc_view(*comments)),
    ensures
        r is Ok <==> (first_dangling(*registry, Seq::empty()) is None && first_invalid(
            registry.entries@,
            0,
        ) is None),
        r is Ok ==> r->Ok_0@.len() == registry.entries@.len(),
        r is Ok ==> forall|j: int|
            0 <= j < r->Ok_0@.len() ==> {
                let order = sort_order_of(dep_map_view(*registry));
                (#[trigger] r->Ok_0@[j]).0@ == order[j] && r->Ok_0@[j].1@ == trimmed(
                    output_container_s(
                        dc_view(*comments),
                        false,
                        false,
                        order[j],
                        registry.value_of(order[j]),
                        order.subrange(0, j),
                    ),
                ) + "\n"@
            },
        first_dangling(*registry, Seq::empty()) is Some ==> r is Err && crate::is_dangling_error(
            r->Err_0,
            first_dangling(*registry, Seq::empty())->Some_0,
        ),
        first_dangling(*registry, Seq::empty()) is None && first_invalid(registry.entries@, 0)
            is Some ==> r == Result::<Vec<(String, String)>, Error>::Err(
            first_invalid(registry.entries@, 0)->Some_0,
        ),
{
    proof {
        assert(views(Seq::<String>::empty()) =~= Seq::<Seq<char>>::empty());
    }
    let map = match crate::analyzer::get_dependency_map(registry) {
        Result::Err(e) => {
            return Result::Err(e);
        },
        Result::Ok(map) => map,
    };
    match first_invalid_exec(registry, 0) {
        Some(e) => Result::Err(e),
        None => {
            proof {
                assert forall|i: int, j: int|
                    0 <= i < j < map_view(map@).len() implies key_at(map_view(map@), i) != key_at(
                    map_view(map@),
                    j,
                ) by {
                    assert(key_at(dep_map_view(*registry), i) == registry.names()[i]);
                    assert(key_at(dep_map_view(*registry), j) == registry.names()[j]);
                }
                assert(distinct_keys(map_view(map@)));
            }
            let order = crate::analyzer::best_effort_topological_sort(&map);
            proof {
                lemma_first_invalid_none(registry.entries@, 0);
                assert forall|j: int| 0 <= j < order@.len() implies registry.has_name(
                    #[trigger] views(order@)[j],
                ) by {
                    assert(m_has_key(map_view(map@), views(order@)[j]));
                    let i = choose|i: int|
                        0 <= i < map_view(map@).len() && key_at(map_view(map@), i) == views(
                            order@,
                        )[j];
                    assert(key_at(dep_map_view(*registry), i) == registry.names()[i]);
                    assert(registry.names().contains(views(order@)[j]));
                }
            }
            let mut known: Vec<String> = Vec::new();
            let defs = quote_defs_from(registry, comments, &order, 0, &mut known);
            proof {
                assert forall|j: int| #![trigger defs@[j]] 0 <= j < defs@.len() implies Seq::<
                    Seq<char>,
                >::empty() + views(order@).subrange(0, j) =~= views(order@).subrange(0, j) by {}
            }
            Result::Ok(defs)
        },
    }
}

/// Same as `quote_container_definitions_with_comments`, without comments.
pub fn quote_container_definitions(registry: &Registry) -> (r: Result<
    Vec<(String, String)>,
    Error,
>)
    requires
        registry.wf(),
    ensures
        r is Ok <==> (first_dangling(*registry, Seq::empty()) is None && first_invalid(
            registry.entries@,
            0,
        ) is None),
        r is Ok ==> r->Ok_0@.len() == registry.entries@.len(),
        r is Ok ==> forall|j: int|
            0 <= j < r->Ok_0@.len() ==> {
                let order = sort_order_of(dep_map_view(*registry));
                (#[trigger] r->Ok_0@[j]).0@ == order[j] && r->Ok_0@[j].1@ == trimmed(
                    output_container_s(
                        Seq::empty(),
                        false,
                        false,
                        order[j],
                        registry.value_of(order[j]),
                        order.subrange(0, j),
                    ),
                ) + "\n"@
            },
        first_dangling(*registry, Seq::empty()) is Some ==> r is Err && crate::is_dangling_error(
            r->Err_0,
            first_dangling(*registry, Seq::empty())->Some_0,
        ),
        first_dangling(*registry, Seq::empty()) is None && first_invalid(registry.entries@, 0)
            is Some ==> r == Result::<Vec<(String, String)>, Error>::Err(
            first_invalid(registry.entries@, 0)->Some_0,
        ),
{
    let comments = DocComments::new();
    quote_container_definitions_with_comments(registry, &comments)
}

// ---------------------------------------------------------------------------
// The indirection law.
// ---------------------------------------------------------------------------

/// Law: a reference in a hard-dependency position whose target is not in
/// the known set is always rendered through the heap-indirection
/// primitive; one whose target is known, and every reference rendered
/// without a known set - as inside a sequence or an associative container
/// - is rendered directly by name.
pub proof fn lemma_indirection_policy(f: Format, ks: Seq<Seq<char>>)
    requires
        f is TypeName,
    ensures
        !ks.contains(f->TypeName_0@) ==> quote_type_s(f, Some(ks)) == "Box<"@ + f->TypeName_0@
            + ">"@,
        ks.contains(f->TypeName_0@) ==> quote_type_s(f, Some(ks)) == f->TypeName_0@,
        quote_type_s(f, None) == f->TypeName_0@,
{
}

/// Law: a reference inside a sequence is rendered directly by name,
/// whatever the known set holds: the element rendering never sees the
/// known set.
pub proof fn lemma_sequence_reference_direct(f: Format, inner: Format, ks: Seq<Seq<char>>)
    requires
        f == Format::Sequence(Box::new(inner)),
        inner is TypeName,
    ensures
        quote_type_s(f, Some(ks)) == "Vec<"@ + inner->TypeName_0@ + ">"@,
{
    lemma_indirection_policy(inner, ks);
}

// ---------------------------------------------------------------------------
// The installer: writes a generated module into a project skeleton. The
// file-system work happens outside the library; the name parsing and the
// manifest text are computed here.
// ---------------------------------------------------------------------------

/// Relies on std::path::PathBuf as an opaque owned path: the library only
/// stores the installation directory; all file-system work happens in the
/// callers outside the library.
#[verifier::external_type_specification]
#[verifier::external_body]
pub struct ExPathBuf(std::path::PathBuf);

/// Installs generated source modules under a directory.
pub struct Installer {
    pub install_dir: std::path::PathBuf,
}

impl Installer {
    pub fn new(install_dir: std::path::PathBuf) -> (r: Installer)
        ensures
            r.install_dir == install_dir,
    {
        Installer { install_dir }
    }

    /// Installing serialization runtimes is delegated to the package
    /// manager.
    pub fn runtimes_not_implemented() -> (r: Result<(), Error>)
        ensures
            r == Result::<(), Error>::Err(Error::RuntimeInstallationUnsupported),
    {
        Result::Err(Error::RuntimeInstallationUnsupported)
    }
}

/// The first colon at position `k` or later.
pub open spec fn first_colon(s: Seq<char>, k: int) -> Option<int>
    decreases s.len() - k,
{
    if k < 0 || k >= s.len() {
        None
    } else if s[k] == ':' {
        Some(k)
    } else {
        first_colon(s, k + 1)
    }
}

fn find_colon(s: &str, n: usize, k: usize) -> (r: Option<usize>)
    requires
        n == s@.len(),
        k <= n,
    ensures
        match r {
            Some(i) => first_colon(s@, k as int) == Some(i as int) && k <= i < n,
            None => first_colon(s@, k as int) is None,
        },
    decreases n - k,
{
    if k >= n {
        None
    } else if s.get_char(k) == ':' {
        Some(k)
    } else {
        find_colon(s, n, k + 1)
    }
}

/// Splits a public module name into the module name proper and a version:
/// the part before the first colon and the part after it, or the whole
/// name and a default version when no colon occurs.
pub fn module_parts(public_name: &str) -> (r: (String, String))
    ensures
        match first_colon(public_name@, 0) {
            Some(i) => r.0@ == public_name@.subrange(0, i) && r.1@ == public_name@.subrange(
                i + 1,
                public_name@.len() as int,
            ),
            None => r.0@ == public_name@ && r.1@ == "0.1.0"@,
        },
{
    let n = public_name.unicode_len();
    match find_colon(public_name, n, 0) {
        Some(i) => {
            let head = public_name.substring_char(0, i);
            let tail = public_name.substring_char(i + 1, n);
            (String::from_str(head), String::from_str(tail))
        },
        None => (String::from_str(public_name), String::from_str("0.1.0")),
    }
}

/// The manifest text of a generated module crate.
pub open spec fn manifest_s(name: Seq<char>, version: Seq<char>) -> Seq<char> {
    "[package]\nname = \""@ + name + "\"\nversion = \""@ + version
        + "\"\nedition = \"2018\"\n\n[dependencies]\nserde = { version = \"1.0\", features = [\"derive\"] }\nserde_bytes = \"0.11\"\n"@
}

/// Renders the manifest of a generated module crate.
pub fn module_manifest(name: &String, version: &String) -> (r: String)
    ensures
        r@ == manifest_s(name@, version@),
{
    let mut out = String::from_str("[package]\nname = \"");
    out.append(name.as_str());
    out.append("\"\nversion = \"");
    out.append(version.as_str());
    out.append(
        "\"\nedition = \"2018\"\n\n[dependencies]\nserde = { version = \"1.0\", features = [\"derive\"] }\nserde_bytes = \"0.11\"\n",
    );
    proof {
        assert(out@ =~= manifest_s(name@, version@));
    }
    out
}

} // verus!
