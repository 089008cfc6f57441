//! The properties of a selected prim that the property inspector shows.
//!
//! The transform, bounds and material are carried as the caller's own types
//! (`X`, `V`, `M`): nothing here reads them.

use vstd::prelude::*;

use crate::scene_browser::provider::PrimDisplayInfo;
use crate::text::{chars_of, decimal, push_decimal, string_from_chars};

verus! {

/// Which detail tab of the inspector is active.
#[derive(Clone, Copy, Debug, PartialEq, Eq, Structural)]
pub enum PropertyTab {
    /// The value of the selected property.
    Value,
    /// The prim's metadata.
    MetaData,
}

impl Default for PropertyTab {
    /// The value tab.
    fn default() -> (t: PropertyTab)
        ensures
            t == PropertyTab::Value,
    {
        PropertyTab::Value
    }
}

/// Properties of a selected prim.
pub struct PrimProperties<X, V, M> {
    /// Prim path.
    pub path: String,
    /// USD type name.
    pub prim_type: String,
    /// Whether the prim is active.
    pub is_active: bool,
    /// World transform, if known.
    pub transform: Option<X>,
    /// Bounding box minimum, if known.
    pub bounds_min: Option<V>,
    /// Bounding box maximum, if known.
    pub bounds_max: Option<V>,
    /// Further name/value properties, in order.
    pub attributes: Vec<(String, String)>,
    /// Bound material, if any.
    pub bound_material: Option<M>,
}

/// The names and values of a list of attributes.
pub open spec fn attribute_texts(a: Seq<(String, String)>) -> Seq<(Seq<char>, Seq<char>)> {
    a.map_values(|p: (String, String)| (p.0@, p.1@))
}

impl<X, V, M> PrimProperties<X, V, M> {
    /// The properties of a prim from its display record: path, type and
    /// activity, nothing else known, and a `Children` attribute holding its
    /// child count.
    pub fn from_display_info(info: &PrimDisplayInfo) -> (p: Self)
        ensures
            p.path@ == info.path@,
            p.prim_type@ == info.prim_type@,
            p.is_active == info.is_active,
            p.transform is None,
            p.bounds_min is None,
            p.bounds_max is None,
            p.bound_material is None,
            attribute_texts(p.attributes@) == seq![
                ("Children"@, decimal(info.child_count as nat)),
            ],
    {
        let mut count = String::new();
        push_decimal(&mut count, info.child_count as u64);
        let mut attributes: Vec<(String, String)> = Vec::new();
        attributes.push((String::from_str("Children"), count));
        assert(attribute_texts(attributes@) =~= seq![("Children"@, decimal(info.child_count as nat))]);
        PrimProperties {
            path: info.path.clone(),
            prim_type: info.prim_type.clone(),
            is_active: info.is_active,
            transform: None,
            bounds_min: None,
            bounds_max: None,
            attributes,
            bound_material: None,
        }
    }

    /// With the world transform set.
    pub fn with_transform(self, transform: X) -> (p: Self)
        ensures
            p.transform == Some(transform),
            p.path == self.path,
            p.prim_type == self.prim_type,
            p.is_active == self.is_active,
            p.bounds_min == self.bounds_min,
            p.bounds_max == self.bounds_max,
            p.attributes == self.attributes,
            p.bound_material == self.bound_material,
    {
        PrimProperties { transform: Some(transform), ..self }
    }

    /// With the bounding box set.
    pub fn with_bounds(self, min: V, max: V) -> (p: Self)
        ensures
            p.bounds_min == Some(min),
            p.bounds_max == Some(max),
            p.path == self.path,
            p.prim_type == self.prim_type,
            p.is_active == self.is_active,
            p.transform == self.transform,
            p.attributes == self.attributes,
            p.bound_material == self.bound_material,
    {
        PrimProperties { bounds_min: Some(min), bounds_max: Some(max), ..self }
    }

    /// With one more attribute, after the others.
    pub fn with_attribute(self, name: &str, value: &str) -> (p: Self)
        ensures
            attribute_texts(p.attributes@) == attribute_texts(self.attributes@).push(
                (name@, value@),
            ),
            p.path == self.path,
            p.prim_type == self.prim_type,
            p.is_active == self.is_active,
            p.transform == self.transform,
            p.bounds_min == self.bounds_min,
            p.bounds_max == self.bounds_max,
            p.bound_material == self.bound_material,
    {
        let mut p = self;
        let ghost a0 = p.attributes@;
        p.attributes.push((String::from_str(name), String::from_str(value)));
        assert(attribute_texts(p.attributes@) =~= attribute_texts(a0).push((name@, value@)));
        p
    }

    /// With the bound material set.
    pub fn with_material(self, material: M) -> (p: Self)
        ensures
            p.bound_material == Some(material),
            p.path == self.path,
            p.prim_type == self.prim_type,
            p.is_active == self.is_active,
            p.transform == self.transform,
            p.bounds_min == self.bounds_min,
            p.bounds_max == self.bounds_max,
            p.attributes == self.attributes,
    {
        PrimProperties { bound_material: Some(material), ..self }
    }
}

/// How a row of the property table is marked.
#[derive(Clone, Copy, Debug, PartialEq, Eq, Structural)]
pub enum PropertyStatus {
    /// A value resolved on the prim.
    Resolved,
    /// A value that could not be resolved.
    Unresolved,
    /// Informational.
    Info,
}

/// A row of the property table whose detail is text (a message or a texture
/// path).
pub struct TextRow {
    pub status: PropertyStatus,
    pub name: String,
    pub summary: String,
    pub detail: String,
}

/// The view of a text row.
pub open spec fn row_view(r: TextRow) -> (PropertyStatus, Seq<char>, Seq<char>, Seq<char>) {
    (r.status, r.name@, r.summary@, r.detail@)
}

/// The views of a list of text rows.
pub open spec fn rows_view(v: Seq<TextRow>) -> Seq<(PropertyStatus, Seq<char>, Seq<char>, Seq<char>)> {
    Seq::new(v.len(), |i: int| row_view(v[i]))
}

/// The texture paths of a bound material, by slot.
pub struct MaterialTextureSlots {
    pub base_color: Option<String>,
    pub roughness: Option<String>,
    pub metalness: Option<String>,
    pub normal: Option<String>,
    pub emission: Option<String>,
    pub opacity: Option<String>,
}

/// Position of the last `/` or `\` in `s` (-1 without one).
pub open spec fn last_separator(s: Seq<char>) -> int
    decreases s.len(),
{
    if s.len() == 0 {
        -1
    } else if s.last() == '/' || s.last() == '\\' {
        s.len() - 1
    } else {
        last_separator(s.drop_last())
    }
}

/// The file name of a texture path: what follows its last `/` or `\`.
pub open spec fn texture_file_name(s: Seq<char>) -> Seq<char> {
    s.skip(last_separator(s) + 1)
}

/// The row of one texture slot, when it holds a path: resolved, the slot's
/// name, the file name as summary and the path as detail.
pub open spec fn texture_row(name: Seq<char>, tex: Option<String>) -> Seq<
    (PropertyStatus, Seq<char>, Seq<char>, Seq<char>),
> {
    match tex {
        Some(p) => seq![(PropertyStatus::Resolved, name, texture_file_name(p@), p@)],
        None => seq![],
    }
}

/// The texture rows of a material: one per slot that holds a path, in the
/// order base colour, roughness, metalness, normal, emission, opacity.
pub open spec fn texture_rows_of(t: MaterialTextureSlots) -> Seq<
    (PropertyStatus, Seq<char>, Seq<char>, Seq<char>),
> {
    texture_row("base_color_texture"@, t.base_color) + texture_row("roughness_texture"@, t.roughness)
        + texture_row("metalness_texture"@, t.metalness) + texture_row("normal_texture"@, t.normal)
        + texture_row("emission_texture"@, t.emission) + texture_row("opacity_texture"@, t.opacity)
}

fn file_name_of(path: &String) -> (r: String)
    ensures
        r@ == texture_file_name(path@),
{
    let v = chars_of(path.as_str());
    let mut i = v.len();
    assert(v@.take(i as int) =~= v@);
    while i > 0 && v[i - 1] != '/' && v[i - 1] != '\\'
        invariant
            i <= v@.len(),
            last_separator(v@) == last_separator(v@.take(i as int)),
        decreases i,
    {
        let ghost t = v@.take(i as int);
        assert(t.drop_last() =~= v@.take(i - 1));
        assert(t.last() == v@[i - 1]);
        i = i - 1;
    }
    assert(last_separator(v@) == i - 1) by {
        if i > 0 {
            let t = v@.take(i as int);
            assert(t.last() == v@[i - 1]);
        } else {
            assert(v@.take(0) =~= Seq::<char>::empty());
        }
    }
    let mut out: Vec<char> = Vec::new();
    let mut j = i;
    while j < v.len()
        invariant
            i <= j <= v@.len(),
            out@ == v@.subrange(i as int, j as int),
        decreases v@.len() - j,
    {
        out.push(v[j]);
        assert(v@.subrange(i as int, j + 1) =~= v@.subrange(i as int, j as int).push(v@[j as int]));
        j = j + 1;
    }
    assert(v@.subrange(i as int, v@.len() as int) =~= v@.skip(i as int));
    string_from_chars(out.as_slice())
}

fn push_texture_row(rows: &mut Vec<TextRow>, name: &str, tex: &Option<String>)
    ensures
        rows_view(final(rows)@) == rows_view(old(rows)@) + texture_row(name@, *tex),
{
    let ghost r0 = rows_view(rows@);
    match tex {
        Some(p) => {
            let row = TextRow {
                status: PropertyStatus::Resolved,
                name: String::from_str(name),
                summary: file_name_of(p),
                detail: p.clone(),
            };
            rows.push(row);
            assert(rows_view(rows@) =~= r0 + texture_row(name@, *tex));
        },
        None => {
            assert(rows_view(rows@) =~= r0 + texture_row(name@, *tex));
        },
    }
}

/// The texture rows of a bound material: a resolved row for each slot that
/// holds a path, named after the slot, summarised by the file name and
/// detailed by the path.
pub fn texture_rows(t: &MaterialTextureSlots) -> (rows: Vec<TextRow>)
    ensures
        rows_view(rows@) == texture_rows_of(*t),
{
    let mut rows: Vec<TextRow> = Vec::new();
    assert(rows_view(rows@) =~= seq![]);
    push_texture_row(&mut rows, "base_color_texture", &t.base_color);
    push_texture_row(&mut rows, "roughness_texture", &t.roughness);
    push_texture_row(&mut rows, "metalness_texture", &t.metalness);
    push_texture_row(&mut rows, "normal_texture", &t.normal);
    push_texture_row(&mut rows, "emission_texture", &t.emission);
    push_texture_row(&mut rows, "opacity_texture", &t.opacity);
    assert(seq![] + texture_row("base_color_texture"@, t.base_color) =~= texture_row(
        "base_color_texture"@,
        t.base_color,
    ));
    rows
}

/// The row shown when no material is bound.
pub fn unbound_material_row() -> (r: TextRow)
    ensures
        row_view(r) == (
            PropertyStatus::Unresolved,
            "Resolved Material"@,
            "<unbound>"@,
            "No material bound to this prim."@,
        ),
{
    TextRow {
        status: PropertyStatus::Unresolved,
        name: String::from_str("Resolved Material"),
        summary: String::from_str("<unbound>"),
        detail: String::from_str("No material bound to this prim."),
    }
}

/// The rows of the extra attributes, in order: informational, the name, and
/// the value as summary and as detail.
pub fn attribute_rows(attributes: &Vec<(String, String)>) -> (rows: Vec<TextRow>)
    ensures
        rows_view(rows@) == Seq::new(
            attributes@.len(),
            |i: int|
                (
                    PropertyStatus::Info,
                    attributes@[i].0@,
                    attributes@[i].1@,
                    attributes@[i].1@,
                ),
        ),
{
    let mut rows: Vec<TextRow> = Vec::new();
    let mut k: usize = 0;
    while k < attributes.len()
        invariant
            k <= attributes@.len(),
            rows@.len() == k,
            forall|i: int|
                0 <= i < k ==> #[trigger] row_view(rows@[i]) == (
                    PropertyStatus::Info,
                    attributes@[i].0@,
                    attributes@[i].1@,
                    attributes@[i].1@,
                ),
        decreases attributes@.len() - k,
    {
        rows.push(
            TextRow {
                status: PropertyStatus::Info,
                name: attributes[k].0.clone(),
                summary: attributes[k].1.clone(),
                detail: attributes[k].1.clone(),
            },
        );
        k = k + 1;
    }
    assert(rows_view(rows@) =~= Seq::new(
        attributes@.len(),
        |i: int|
            (PropertyStatus::Info, attributes@[i].0@, attributes@[i].1@, attributes@[i].1@),
    ));
    rows
}

} // verus!
