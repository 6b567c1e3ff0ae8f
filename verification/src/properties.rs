//! CSS property catalog organized by semantic category.
//!
//! Each category maps to a set of CSS property names that the browser
//! returns from `getComputedStyle`. The catalog is used to request only
//! the properties that matter.
use crate::text::{chars_of, is_ws, seq_eq, trim, trim_end, trim_start, trim_vec};
use vstd::prelude::*;

verus! {

/// Semantic category of CSS properties.
#[derive(Debug, Clone, Copy, PartialEq, Eq, Hash, Structural)]
pub enum StyleCategory {
    /// width/height, margin, padding, border, box-sizing, overflow.
    BoxModel,
    /// display, position, flex, grid, z-index, contain, multi-column.
    Layout,
    /// font-*, text-*, line-height, letter-spacing, white-space.
    Typography,
    /// color, background, box-shadow, filter, clip-path, outline.
    Visual,
    /// transform, perspective, offset-*, translate/rotate/scale.
    Transform,
    /// animation-*, transition-*, timeline properties.
    Animation,
    /// cursor, scroll-*, overscroll, user-select, touch-action.
    Interaction,
    /// forced-color-adjust, color-scheme, print-color-adjust, content.
    Accessibility,
    /// User-supplied custom properties (`--props`).
    Custom,
    /// All CSS custom properties (`--*`) reported by the browser.
    Variables,
    /// Sentinel: request every property the browser reports.
    All,
}

/// Short JSON key used in the output stream.
pub open spec fn key_of(c: StyleCategory) -> &'static str {
    match c {
        StyleCategory::BoxModel => "box_model",
        StyleCategory::Layout => "layout",
        StyleCategory::Typography => "typography",
        StyleCategory::Visual => "visual",
        StyleCategory::Transform => "transform",
        StyleCategory::Animation => "animation",
        StyleCategory::Interaction => "interaction",
        StyleCategory::Accessibility => "accessibility",
        StyleCategory::Custom => "custom",
        StyleCategory::Variables => "css_variables",
        StyleCategory::All => "all",
    }
}

/// Human-friendly name used by the CLI (`--categories box-model`).
pub open spec fn cli_name_of(c: StyleCategory) -> &'static str {
    match c {
        StyleCategory::BoxModel => "box-model",
        StyleCategory::Layout => "layout",
        StyleCategory::Typography => "typography",
        StyleCategory::Visual => "visual",
        StyleCategory::Transform => "transform",
        StyleCategory::Animation => "animation",
        StyleCategory::Interaction => "interaction",
        StyleCategory::Accessibility => "accessibility",
        StyleCategory::Custom => "custom",
        StyleCategory::Variables => "variables",
        StyleCategory::All => "all",
    }
}

/// The eight concrete categories, in declaration order.
pub open spec fn all_categories() -> Seq<StyleCategory> {
    seq![
        StyleCategory::BoxModel,
        StyleCategory::Layout,
        StyleCategory::Typography,
        StyleCategory::Visual,
        StyleCategory::Transform,
        StyleCategory::Animation,
        StyleCategory::Interaction,
        StyleCategory::Accessibility,
    ]
}

/// The catalog entries of a category (empty for `Custom`, `Variables`
/// and `All`).
pub open spec fn properties_of(c: StyleCategory) -> Seq<&'static str> {
    match c {
        StyleCategory::BoxModel => BOX_MODEL@,
        StyleCategory::Layout => LAYOUT@,
        StyleCategory::Typography => TYPOGRAPHY@,
        StyleCategory::Visual => VISUAL@,
        StyleCategory::Transform => TRANSFORM@,
        StyleCategory::Animation => ANIMATION@,
        StyleCategory::Interaction => INTERACTION@,
        StyleCategory::Accessibility => ACCESSIBILITY@,
        _ => Seq::empty(),
    }
}

/// The property names of a category, as character sequences.
pub open spec fn names_of(c: StyleCategory) -> Seq<Seq<char>> {
    properties_of(c).map_values(|s: &'static str| s@)
}

impl StyleCategory {
    /// Short JSON key used in the output stream.
    pub fn key(self) -> (r: &'static str)
        ensures
            r == key_of(self),
    {
        match self {
            StyleCategory::BoxModel => "box_model",
            StyleCategory::Layout => "layout",
            StyleCategory::Typography => "typography",
            StyleCategory::Visual => "visual",
            StyleCategory::Transform => "transform",
            StyleCategory::Animation => "animation",
            StyleCategory::Interaction => "interaction",
            StyleCategory::Accessibility => "accessibility",
            StyleCategory::Custom => "custom",
            StyleCategory::Variables => "css_variables",
            StyleCategory::All => "all",
        }
    }

    /// Human-friendly name used by the CLI (`--categories box-model`).
    pub fn cli_name(self) -> (r: &'static str)
        ensures
            r == cli_name_of(self),
    {
        match self {
            StyleCategory::BoxModel => "box-model",
            StyleCategory::Layout => "layout",
            StyleCategory::Typography => "typography",
            StyleCategory::Visual => "visual",
            StyleCategory::Transform => "transform",
            StyleCategory::Animation => "animation",
            StyleCategory::Interaction => "interaction",
            StyleCategory::Accessibility => "accessibility",
            StyleCategory::Custom => "custom",
            StyleCategory::Variables => "variables",
            StyleCategory::All => "all",
        }
    }

    /// All categories in declaration order (without the `All` sentinel).
    pub fn all() -> (r: [StyleCategory; 8])
        ensures
            r@ == all_categories(),
    {
        let r = [
            StyleCategory::BoxModel,
            StyleCategory::Layout,
            StyleCategory::Typography,
            StyleCategory::Visual,
            StyleCategory::Transform,
            StyleCategory::Animation,
            StyleCategory::Interaction,
            StyleCategory::Accessibility,
        ];
        assert(r@ =~= all_categories());
        r
    }

    /// The CSS properties belonging to this category.
    ///
    /// `All` returns an empty slice; [`properties_for`] resolves it to the
    /// complete catalog.
    pub fn properties(self) -> (r: &'static [&'static str])
        ensures
            r@ == properties_of(self),
    {
        match self {
            StyleCategory::BoxModel => BOX_MODEL.as_slice(),
            StyleCategory::Layout => LAYOUT.as_slice(),
            StyleCategory::Typography => TYPOGRAPHY.as_slice(),
            StyleCategory::Visual => VISUAL.as_slice(),
            StyleCategory::Transform => TRANSFORM.as_slice(),
            StyleCategory::Animation => ANIMATION.as_slice(),
            StyleCategory::Interaction => INTERACTION.as_slice(),
            StyleCategory::Accessibility => ACCESSIBILITY.as_slice(),
            _ => {
                let e: &'static [&'static str] = &[];
                assert(e@ =~= Seq::<&'static str>::empty());
                e
            },
        }
    }
}

/// The first category of `cats` whose CLI name or JSON key is `t`.
pub open spec fn first_named(cats: Seq<StyleCategory>, t: Seq<char>) -> Option<StyleCategory>
    decreases cats.len(),
{
    if cats.len() == 0 {
        None
    } else if cli_name_of(cats[0])@ == t || key_of(cats[0])@ == t {
        Some(cats[0])
    } else {
        first_named(cats.drop_first(), t)
    }
}

/// The category that `input` names: a concrete category by its CLI name or
/// JSON key (surrounding whitespace ignored), or `All` for `all`/`every`.
pub open spec fn category_named(input: Seq<char>) -> Option<StyleCategory> {
    let t = trim(input);
    match first_named(all_categories(), t) {
        Some(c) => Some(c),
        None => if t == "all"@ || t == "every"@ {
            Some(StyleCategory::All)
        } else {
            None
        },
    }
}

/// Parse a category from its CLI name (`box-model`) or JSON key
/// (`box_model`). Returns `None` for unknown names.
pub fn parse_category(input: &str) -> (r: Option<StyleCategory>)
    ensures
        r == category_named(input@),
{
    parse_category_chars(&chars_of(input))
}

/// `parse_category` on characters.
pub fn parse_category_chars(input: &Vec<char>) -> (r: Option<StyleCategory>)
    ensures
        r == category_named(input@),
{
    let t = trim_vec(input);
    let cats = StyleCategory::all();
    let mut i: usize = 0;
    assert(all_categories().skip(0) =~= all_categories());
    while i < 8
        invariant
            i <= 8,
            cats@ == all_categories(),
            t@ == trim(input@),
            first_named(all_categories(), t@) == first_named(all_categories().skip(i as int), t@),
        decreases 8 - i,
    {
        let cat = cats[i];
        assert(all_categories().skip(i as int)[0] == cat);
        assert(all_categories().skip(i as int).drop_first() =~= all_categories().skip(i + 1));
        let name = chars_of(cat.cli_name());
        let key = chars_of(cat.key());
        if seq_eq(&name, &t) || seq_eq(&key, &t) {
            return Some(cat);
        }
        i = i + 1;
    }
    assert(all_categories().skip(8) =~= Seq::<StyleCategory>::empty());
    let all = chars_of("all");
    let every = chars_of("every");
    if seq_eq(&t, &all) || seq_eq(&t, &every) {
        Some(StyleCategory::All)
    } else {
        None
    }
}

/// Every concrete category is parsed back from its CLI name and from its
/// JSON key.
pub proof fn lemma_category_names_round_trip(c: StyleCategory)
    requires
        all_categories().contains(c),
    ensures
        category_named(cli_name_of(c)@) == Some(c),
        category_named(key_of(c)@) == Some(c),
{
    reveal_strlit("box-model");
    reveal_strlit("layout");
    reveal_strlit("typography");
    reveal_strlit("visual");
    reveal_strlit("transform");
    reveal_strlit("animation");
    reveal_strlit("interaction");
    reveal_strlit("accessibility");
    reveal_strlit("box_model");
    let cats = all_categories();
    let k = choose|k: int| 0 <= k < cats.len() && cats[k] == c;
    let n = cli_name_of(c)@;
    let j = key_of(c)@;
    assert(trim_start(n) == n);
    assert(trim_end(n) == n);
    assert(trim_start(j) == j);
    assert(trim_end(j) == j);
    reveal_with_fuel(first_named, 9);
}

/// Whether every character of `p` is whitespace.
pub open spec fn all_ws(p: Seq<char>) -> bool {
    forall|i: int| 0 <= i < p.len() ==> is_ws(#[trigger] p[i])
}

proof fn lemma_trim_start_pad(p: Seq<char>, x: Seq<char>)
    requires
        all_ws(p),
    ensures
        trim_start(p + x) == trim_start(x),
    decreases p.len(),
{
    if p.len() > 0 {
        assert((p + x).drop_first() =~= p.drop_first() + x);
        assert((p + x)[0] == p[0]);
        assert(all_ws(p.drop_first())) by {
            assert forall|i: int| 0 <= i < p.drop_first().len() implies is_ws(#[trigger] p.drop_first()[i]) by {
                assert(p.drop_first()[i] == p[i + 1]);
            }
        }
        lemma_trim_start_pad(p.drop_first(), x);
    } else {
        assert(p + x =~= x);
    }
}

proof fn lemma_trim_end_pad(x: Seq<char>, p: Seq<char>)
    requires
        all_ws(p),
    ensures
        trim_end(x + p) == trim_end(x),
    decreases p.len(),
{
    if p.len() > 0 {
        assert((x + p).drop_last() =~= x + p.drop_last());
        assert((x + p).last() == p.last());
        assert(is_ws(p[p.len() - 1]));
        assert(all_ws(p.drop_last())) by {
            assert forall|i: int| 0 <= i < p.drop_last().len() implies is_ws(#[trigger] p.drop_last()[i]) by {
                assert(p.drop_last()[i] == p[i]);
            }
        }
        lemma_trim_end_pad(x, p.drop_last());
    } else {
        assert(x + p =~= x);
    }
}

/// Whitespace around a name that neither starts nor ends with whitespace
/// is trimmed away.
proof fn lemma_trim_padded(pad: Seq<char>, n: Seq<char>)
    requires
        all_ws(pad),
        n.len() > 0,
        !is_ws(n[0]),
        !is_ws(n.last()),
    ensures
        trim(pad + n + pad) == n,
{
    assert(pad + n + pad =~= pad + (n + pad));
    lemma_trim_start_pad(pad, n + pad);
    assert((n + pad)[0] == n[0]);
    assert(trim_start(n + pad) == n + pad);
    lemma_trim_end_pad(n, pad);
    assert(trim_end(n) == n);
}

/// Every category, `All` included, is parsed back from its CLI name and
/// from its JSON key, also with whitespace around them.
pub proof fn lemma_category_padded_round_trip(c: StyleCategory, pad: Seq<char>)
    requires
        all_categories().contains(c) || c == StyleCategory::All,
        all_ws(pad),
    ensures
        category_named(pad + cli_name_of(c)@ + pad) == Some(c),
        category_named(pad + key_of(c)@ + pad) == Some(c),
{
    reveal_strlit("box-model");
    reveal_strlit("layout");
    reveal_strlit("typography");
    reveal_strlit("visual");
    reveal_strlit("transform");
    reveal_strlit("animation");
    reveal_strlit("interaction");
    reveal_strlit("accessibility");
    reveal_strlit("box_model");
    reveal_strlit("all");
    reveal_strlit("every");
    let n = cli_name_of(c)@;
    let j = key_of(c)@;
    assert(n.len() > 0 && !is_ws(n[0]) && !is_ws(n.last()));
    assert(j.len() > 0 && !is_ws(j[0]) && !is_ws(j.last()));
    lemma_trim_padded(pad, n);
    lemma_trim_padded(pad, j);
    if c == StyleCategory::All {
        reveal_with_fuel(first_named, 9);
        assert(first_named(all_categories(), "all"@) is None);
    } else {
        lemma_category_names_round_trip(c);
    }
}

/// The catalog names of `cats`, category after category.
pub open spec fn concat_names(cats: Seq<StyleCategory>) -> Seq<Seq<char>>
    decreases cats.len(),
{
    if cats.len() == 0 {
        Seq::empty()
    } else {
        concat_names(cats.drop_last()) + names_of(cats.last())
    }
}

/// The catalog names that a list of categories asks for: every catalog
/// name when `All` is among them, else those of each category in turn.
pub open spec fn requested_names(cats: Seq<StyleCategory>) -> Seq<Seq<char>> {
    if cats.contains(StyleCategory::All) {
        concat_names(all_categories())
    } else {
        concat_names(cats)
    }
}

/// The custom property names, trimmed, with the empty ones left out.
pub open spec fn custom_names(custom: Seq<Seq<char>>) -> Seq<Seq<char>>
    decreases custom.len(),
{
    if custom.len() == 0 {
        Seq::empty()
    } else {
        let t = trim(custom.last());
        if t.len() > 0 {
            custom_names(custom.drop_last()).push(t)
        } else {
            custom_names(custom.drop_last())
        }
    }
}

/// `s` with every element after its first occurrence left out.
pub open spec fn dedup(s: Seq<Seq<char>>) -> Seq<Seq<char>>
    decreases s.len(),
{
    if s.len() == 0 {
        Seq::empty()
    } else {
        let d = dedup(s.drop_last());
        if d.contains(s.last()) {
            d
        } else {
            d.push(s.last())
        }
    }
}

/// `dedup` keeps exactly the elements of its input, each once.
pub proof fn lemma_dedup(s: Seq<Seq<char>>)
    ensures
        dedup(s).no_duplicates(),
        forall|x: Seq<char>| dedup(s).contains(x) <==> s.contains(x),
    decreases s.len(),
{
    if s.len() > 0 {
        let p = s.drop_last();
        let l = s.last();
        lemma_dedup(p);
        let d = dedup(p);
        assert forall|x: Seq<char>| s.contains(x) <==> (p.contains(x) || x == l) by {
            if s.contains(x) {
                let k = choose|k: int| 0 <= k < s.len() && s[k] == x;
                if k < s.len() - 1 {
                    assert(p[k] == x);
                }
            }
            if p.contains(x) {
                let k = choose|k: int| 0 <= k < p.len() && p[k] == x;
                assert(s[k] == x);
            }
            if x == l {
                assert(s[s.len() - 1] == x);
            }
        }
        if !d.contains(l) {
            let e = d.push(l);
            assert forall|x: Seq<char>| e.contains(x) <==> (d.contains(x) || x == l) by {
                if e.contains(x) {
                    let k = choose|k: int| 0 <= k < e.len() && e[k] == x;
                    if k < d.len() {
                        assert(d[k] == x);
                    }
                }
                if d.contains(x) {
                    let k = choose|k: int| 0 <= k < d.len() && d[k] == x;
                    assert(e[k] == x);
                }
                if x == l {
                    assert(e[e.len() - 1] == x);
                }
            }
            assert forall|a: int, b: int| 0 <= a < e.len() && 0 <= b < e.len() && a != b
                implies e[a] != e[b] by {
                if a < d.len() && b < d.len() {
                } else if a < d.len() {
                    assert(d.contains(e[a]));
                } else {
                    assert(d.contains(e[b]));
                }
            }
        }
    }
}

/// The views of a vector of strings.
pub open spec fn string_views(v: Seq<String>) -> Seq<Seq<char>> {
    v.map_values(|s: String| s@)
}

/// Appends `name` to `out` unless an equal name is already there.
fn push_unique(out: &mut Vec<String>, name: String)
    ensures
        string_views(final(out)@) == (if string_views(old(out)@).contains(name@) {
            string_views(old(out)@)
        } else {
            string_views(old(out)@).push(name@)
        }),
{
    let mut i: usize = 0;
    while i < out.len()
        invariant
            i <= out.len(),
            forall|j: int| 0 <= j < i ==> out@[j]@ != name@,
        decreases out.len() - i,
    {
        if out[i] == name {
            assert(string_views(out@)[i as int] == name@);
            return;
        }
        i = i + 1;
    }
    let ghost before = string_views(out@);
    assert(!before.contains(name@)) by {
        if before.contains(name@) {
            let k = choose|k: int| 0 <= k < before.len() && before[k] == name@;
            assert(out@[k]@ == name@);
        }
    }
    out.push(name);
    assert(string_views(out@) =~= before.push(name@));
}

/// Resolve a list of categories into the concrete set of property names:
/// the catalog names asked for (every one when `All` is present), then the
/// trimmed non-empty custom names, each name kept once at its first
/// position.
pub fn properties_for(categories: &[StyleCategory], custom: &[String]) -> (r: Vec<String>)
    ensures
        string_views(r@) == dedup(requested_names(categories@) + custom_names(string_views(custom@))),
{
    let mut out: Vec<String> = Vec::new();
    let mut has_all = false;
    let mut k: usize = 0;
    while k < categories.len()
        invariant
            k <= categories.len(),
            has_all == exists|j: int| 0 <= j < k && categories@[j] == StyleCategory::All,
        decreases categories.len() - k,
    {
        if categories[k] == StyleCategory::All {
            has_all = true;
        }
        k = k + 1;
    }
    assert(has_all == categories@.contains(StyleCategory::All));
    let all = StyleCategory::all();
    let cats: &[StyleCategory] = if has_all {
        all.as_slice()
    } else {
        categories
    };
    let ghost cs = cats@;
    assert(requested_names(categories@) == concat_names(cs));
    let ghost mut processed: Seq<Seq<char>> = Seq::empty();
    let mut i: usize = 0;
    while i < cats.len()
        invariant
            cs == cats@,
            i <= cats.len(),
            processed == concat_names(cs.take(i as int)),
            string_views(out@) == dedup(processed),
        decreases cats.len() - i,
    {
        let props = cats[i].properties();
        assert(cs.take(i + 1).drop_last() =~= cs.take(i as int));
        let ghost base = processed;
        let mut j: usize = 0;
        while j < props.len()
            invariant
                i < cs.len(),
                props@ == properties_of(cs[i as int]),
                j <= props.len(),
                processed == base + names_of(cs[i as int]).take(j as int),
                string_views(out@) == dedup(processed),
            decreases props.len() - j,
        {
            let name = String::from_str(props[j]);
            let ghost before = processed;
            proof {
                processed = processed.push(name@);
                assert(processed.drop_last() =~= before);
                assert(base + names_of(cs[i as int]).take(j + 1) =~= processed);
            }
            push_unique(&mut out, name);
            j = j + 1;
        }
        assert(names_of(cs[i as int]).take(props.len() as int) =~= names_of(cs[i as int]));
        assert(concat_names(cs.take(i + 1)) == concat_names(cs.take(i as int)) + names_of(cs[i as int]));
        i = i + 1;
    }
    assert(cs.take(cs.len() as int) =~= cs);
    let ghost req = processed;
    let mut c: usize = 0;
    while c < custom.len()
        invariant
            c <= custom.len(),
            req == requested_names(categories@),
            processed == req + custom_names(string_views(custom@).take(c as int)),
            string_views(out@) == dedup(processed),
        decreases custom.len() - c,
    {
        let ghost views = string_views(custom@);
        assert(views.take(c + 1).drop_last() =~= views.take(c as int));
        assert(views.take(c + 1).last() == custom@[c as int]@);
        let raw = chars_of(custom[c].as_str());
        let t = trim_vec(&raw);
        if t.len() > 0 {
            let name = crate::text::string_of(t);
            let ghost before = processed;
            proof {
                processed = processed.push(name@);
                assert(processed.drop_last() =~= before);
                assert(req + custom_names(views.take(c + 1)) =~= processed);
            }
            push_unique(&mut out, name);
        }
        c = c + 1;
    }
    assert(string_views(custom@).take(custom.len() as int) =~= string_views(custom@));
    out
}

/// The names that `properties_for` returns are pairwise distinct, and they
/// are exactly the requested catalog names and the non-empty custom names.
pub proof fn lemma_properties_for_distinct(cats: Seq<StyleCategory>, custom: Seq<Seq<char>>)
    ensures
        dedup(requested_names(cats) + custom_names(custom)).no_duplicates(),
        forall|x: Seq<char>|
            #[trigger] dedup(requested_names(cats) + custom_names(custom)).contains(x) <==> (
            requested_names(cats).contains(x) || custom_names(custom).contains(x)),
{
    let s = requested_names(cats) + custom_names(custom);
    lemma_dedup(s);
    assert(dedup(requested_names(cats) + custom_names(custom)) == dedup(s));
    assert forall|x: Seq<char>| s.contains(x) <==> (requested_names(cats).contains(x)
        || custom_names(custom).contains(x)) by {
        let a = requested_names(cats);
        let b = custom_names(custom);
        if s.contains(x) {
            let k = choose|k: int| 0 <= k < s.len() && s[k] == x;
            if k < a.len() {
                assert(a[k] == x);
            } else {
                assert(b[k - a.len()] == x);
            }
        }
        if a.contains(x) {
            let k = choose|k: int| 0 <= k < a.len() && a[k] == x;
            assert(s[k] == x);
        }
        if b.contains(x) {
            let k = choose|k: int| 0 <= k < b.len() && b[k] == x;
            assert(s[a.len() + k] == x);
        }
    }
    assert forall|x: Seq<char>|
        #[trigger] dedup(requested_names(cats) + custom_names(custom)).contains(x) <==> (
        requested_names(cats).contains(x) || custom_names(custom).contains(x)) by {
        assert(dedup(s).contains(x) <==> s.contains(x));
    }
}

/// Properties of the `box-model` category.
pub const BOX_MODEL: [&'static str; 60] = [
    "width",
    "min-width",
    "max-width",
    "height",
    "min-height",
    "max-height",
    "block-size",
    "min-block-size",
    "max-block-size",
    "inline-size",
    "min-inline-size",
    "max-inline-size",
    "margin-top",
    "margin-right",
    "margin-bottom",
    "margin-left",
    "margin-block-start",
    "margin-block-end",
    "margin-inline-start",
    "margin-inline-end",
    "padding-top",
    "padding-right",
    "padding-bottom",
    "padding-left",
    "padding-block-start",
    "padding-block-end",
    "padding-inline-start",
    "padding-inline-end",
    "border-top-width",
    "border-right-width",
    "border-bottom-width",
    "border-left-width",
    "border-block-start-width",
    "border-block-end-width",
    "border-inline-start-width",
    "border-inline-end-width",
    "border-top-style",
    "border-right-style",
    "border-bottom-style",
    "border-left-style",
    "border-block-start-style",
    "border-block-end-style",
    "border-inline-start-style",
    "border-inline-end-style",
    "border-top-color",
    "border-right-color",
    "border-bottom-color",
    "border-left-color",
    "border-block-start-color",
    "border-block-end-color",
    "border-inline-start-color",
    "border-inline-end-color",
    "box-sizing",
    "aspect-ratio",
    "overflow-x",
    "overflow-y",
    "overflow-block",
    "overflow-inline",
    "overflow-anchor",
    "overflow-clip-margin",
];

/// Properties of the `layout` category.
pub const LAYOUT: [&'static str; 60] = [
    "display",
    "position",
    "inset-block-start",
    "inset-block-end",
    "inset-inline-start",
    "inset-inline-end",
    "top",
    "right",
    "bottom",
    "left",
    "float",
    "clear",
    "z-index",
    "flex-direction",
    "flex-wrap",
    "justify-content",
    "align-items",
    "align-content",
    "gap",
    "row-gap",
    "column-gap",
    "flex-grow",
    "flex-shrink",
    "flex-basis",
    "align-self",
    "justify-self",
    "order",
    "place-content",
    "place-items",
    "place-self",
    "grid-template-columns",
    "grid-template-rows",
    "grid-template-areas",
    "grid-auto-columns",
    "grid-auto-rows",
    "grid-auto-flow",
    "grid-column-start",
    "grid-column-end",
    "grid-row-start",
    "grid-row-end",
    "grid-area",
    "grid-column-gap",
    "grid-row-gap",
    "contain",
    "content-visibility",
    "contain-intrinsic-size",
    "contain-intrinsic-width",
    "contain-intrinsic-height",
    "columns",
    "column-width",
    "column-count",
    "column-rule-width",
    "column-rule-style",
    "column-rule-color",
    "column-span",
    "column-fill",
    "break-before",
    "break-after",
    "break-inside",
    "box-decoration-break",
];

/// Properties of the `typography` category.
pub const TYPOGRAPHY: [&'static str; 60] = [
    "font-family",
    "font-size",
    "font-weight",
    "font-style",
    "font-stretch",
    "font-optical-sizing",
    "font-variation-settings",
    "font-kerning",
    "font-feature-settings",
    "font-variant-ligatures",
    "font-variant-numeric",
    "font-variant-east-asian",
    "font-variant-alternates",
    "font-variant-position",
    "font-variant-caps",
    "font-variant-emoji",
    "font-size-adjust",
    "font-synthesis-weight",
    "font-synthesis-style",
    "font-synthesis-small-caps",
    "font-synthesis-position",
    "line-height",
    "letter-spacing",
    "word-spacing",
    "text-align",
    "text-align-last",
    "text-indent",
    "text-transform",
    "text-decoration-line",
    "text-decoration-style",
    "text-decoration-color",
    "text-decoration-thickness",
    "text-underline-offset",
    "text-underline-position",
    "text-emphasis-style",
    "text-emphasis-color",
    "text-emphasis-position",
    "text-shadow",
    "text-wrap",
    "text-wrap-mode",
    "text-wrap-style",
    "white-space",
    "white-space-collapse",
    "word-break",
    "overflow-wrap",
    "hyphens",
    "hyphenate-character",
    "hyphenate-limit-chars",
    "vertical-align",
    "writing-mode",
    "direction",
    "unicode-bidi",
    "tab-size",
    "line-break",
    "text-justify",
    "text-orientation",
    "text-combine-upright",
    "text-overflow",
    "text-size-adjust",
    "hanging-punctuation",
];

/// Properties of the `visual` category.
pub const VISUAL: [&'static str; 53] = [
    "color",
    "opacity",
    "visibility",
    "background-color",
    "background-image",
    "background-size",
    "background-position-x",
    "background-position-y",
    "background-repeat",
    "background-attachment",
    "background-origin",
    "background-clip",
    "background-blend-mode",
    "box-shadow",
    "border-top-left-radius",
    "border-top-right-radius",
    "border-bottom-right-radius",
    "border-bottom-left-radius",
    "border-start-start-radius",
    "border-start-end-radius",
    "border-end-start-radius",
    "border-end-end-radius",
    "border-image-source",
    "border-image-slice",
    "border-image-width",
    "border-image-outset",
    "border-image-repeat",
    "outline-width",
    "outline-style",
    "outline-color",
    "outline-offset",
    "filter",
    "backdrop-filter",
    "mix-blend-mode",
    "isolation",
    "mask-image",
    "mask-mode",
    "mask-size",
    "mask-position",
    "mask-repeat",
    "mask-origin",
    "mask-clip",
    "mask-composite",
    "clip-path",
    "clip-rule",
    "image-rendering",
    "object-fit",
    "object-position",
    "paint-order",
    "shape-outside",
    "shape-margin",
    "shape-image-threshold",
    "image-orientation",
];

/// Properties of the `transform` category.
pub const TRANSFORM: [&'static str; 15] = [
    "transform",
    "transform-origin",
    "transform-style",
    "transform-box",
    "perspective",
    "perspective-origin",
    "backface-visibility",
    "translate",
    "rotate",
    "scale",
    "offset-path",
    "offset-distance",
    "offset-rotate",
    "offset-anchor",
    "offset-position",
];

/// Properties of the `animation` category.
pub const ANIMATION: [&'static str; 23] = [
    "animation-name",
    "animation-duration",
    "animation-timing-function",
    "animation-delay",
    "animation-iteration-count",
    "animation-direction",
    "animation-fill-mode",
    "animation-play-state",
    "animation-composition",
    "animation-timeline",
    "animation-range-start",
    "animation-range-end",
    "transition-property",
    "transition-duration",
    "transition-timing-function",
    "transition-delay",
    "transition-behavior",
    "scroll-timeline-name",
    "scroll-timeline-axis",
    "view-timeline-name",
    "view-timeline-axis",
    "view-timeline-inset",
    "view-transition-name",
];

/// Properties of the `interaction` category.
pub const INTERACTION: [&'static str; 35] = [
    "cursor",
    "pointer-events",
    "user-select",
    "caret-color",
    "scroll-behavior",
    "scroll-snap-type",
    "scroll-snap-align",
    "scroll-snap-stop",
    "scroll-margin-top",
    "scroll-margin-right",
    "scroll-margin-bottom",
    "scroll-margin-left",
    "scroll-margin-block-start",
    "scroll-margin-block-end",
    "scroll-margin-inline-start",
    "scroll-margin-inline-end",
    "scroll-padding-top",
    "scroll-padding-right",
    "scroll-padding-bottom",
    "scroll-padding-left",
    "scroll-padding-block-start",
    "scroll-padding-block-end",
    "scroll-padding-inline-start",
    "scroll-padding-inline-end",
    "scrollbar-width",
    "scrollbar-color",
    "scrollbar-gutter",
    "overscroll-behavior-x",
    "overscroll-behavior-y",
    "overscroll-behavior-block",
    "overscroll-behavior-inline",
    "touch-action",
    "resize",
    "accent-color",
    "appearance",
];

/// Properties of the `accessibility` category.
pub const ACCESSIBILITY: [&'static str; 4] = [
    "forced-color-adjust",
    "color-scheme",
    "print-color-adjust",
    "content",
];

} // verus!
