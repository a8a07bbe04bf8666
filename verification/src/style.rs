//! The computed presentation of the KFX style names seen in Kindle books:
//! a compact table after the computed Calibre KFX Input stylesheet, with a
//! reflowable-body fallback for names it does not know.
use vstd::prelude::*;
use crate::text::{owned, str_eq, trim, trim_str};

verus! {

/// CSS-like properties, each name once, in the order first set.
#[derive(Debug)]
pub struct KfxComputedStyle {
    pub properties: Vec<(String, String)>,
}

pub type StyleProps = Seq<(Seq<char>, Seq<char>)>;

impl View for KfxComputedStyle {
    type V = StyleProps;

    open spec fn view(&self) -> StyleProps {
        self.properties@.map_values(|p: (String, String)| (p.0@, p.1@))
    }
}

/// `p` with property `k` set to `v`: replaced where it stands, else added
/// at the end.
pub open spec fn set_prop(p: StyleProps, k: Seq<char>, v: Seq<char>) -> StyleProps {
    if last_index(p, k) < 0 {
        p.push((k, v))
    } else {
        p.update(last_index(p, k), (k, v))
    }
}

/// The value of property `k`.
pub open spec fn get_prop(p: StyleProps, k: Seq<char>) -> Option<Seq<char>>
    decreases p.len(),
{
    if p.len() == 0 {
        None
    } else if p.last().0 == k {
        Some(p.last().1)
    } else {
        get_prop(p.drop_last(), k)
    }
}

impl KfxComputedStyle {
    pub fn new() -> (r: Self)
        ensures
            r@ == Seq::<(Seq<char>, Seq<char>)>::empty(),
    {
        let r = KfxComputedStyle { properties: Vec::new() };
        assert(r@ =~= Seq::<(Seq<char>, Seq<char>)>::empty());
        r
    }

    /// The position of the last property named `name`.
    fn find(&self, name: &str) -> (r: Option<usize>)
        ensures
            match r {
                Some(j) => last_index(self@, name@) == j as int,
                None => last_index(self@, name@) < 0,
            },
    {
        let ghost pv = self@;
        let mut i = self.properties.len();
        assert(pv.take(i as int) =~= pv);
        while i > 0
            invariant
                i <= self.properties@.len(),
                pv == self@,
                last_index(pv, name@) == last_index(pv.take(i as int), name@),
            decreases i,
        {
            proof {
                assert(pv.take(i as int).drop_last() =~= pv.take(i - 1));
                assert(pv.take(i as int).last() == pv[i - 1]);
                assert(pv[i - 1] == (self.properties@[i - 1].0@, self.properties@[i - 1].1@));
            }
            if str_eq(self.properties[i - 1].0.as_str(), name) {
                return Some(i - 1);
            }
            i = i - 1;
        }
        None
    }

    /// The style with property `name` set to `value`.
    pub fn with(self, name: &str, value: &str) -> (r: Self)
        ensures
            r@ == set_prop(self@, name@, value@),
    {
        let ghost start = self@;
        let found = self.find(name);
        proof {
            lemma_last_index_bounds(start, name@);
        }
        let mut props = self.properties;
        match found {
            Some(j) => {
                props.set(j, (owned(name), owned(value)));
                let r = KfxComputedStyle { properties: props };
                assert(r@ =~= start.update(j as int, (name@, value@)));
                r
            },
            None => {
                props.push((owned(name), owned(value)));
                let r = KfxComputedStyle { properties: props };
                assert(r@ =~= start.push((name@, value@)));
                r
            },
        }
    }

    /// The value of property `name`.
    pub fn get(&self, name: &str) -> (r: Option<String>)
        ensures
            match r {
                Some(v) => get_prop(self@, name@) == Some(v@),
                None => get_prop(self@, name@) is None,
            },
    {
        let ghost pv = self@;
        let mut i = self.properties.len();
        assert(pv.take(i as int) =~= pv);
        while i > 0
            invariant
                i <= self.properties@.len(),
                pv == self@,
                get_prop(pv, name@) == get_prop(pv.take(i as int), name@),
            decreases i,
        {
            proof {
                assert(pv.take(i as int).drop_last() =~= pv.take(i - 1));
                assert(pv.take(i as int).last() == pv[i - 1]);
            }
            if str_eq(self.properties[i - 1].0.as_str(), name) {
                assert(pv[i - 1] == (self.properties@[i - 1].0@, self.properties@[i - 1].1@));
                return Some(owned(self.properties[i - 1].1.as_str()));
            }
            i = i - 1;
        }
        None
    }
}

/// The position of the last property named `k`, or -1.
pub open spec fn last_index(p: StyleProps, k: Seq<char>) -> int
    decreases p.len(),
{
    if p.len() == 0 {
        -1
    } else if p.last().0 == k {
        p.len() - 1
    } else {
        last_index(p.drop_last(), k)
    }
}

proof fn lemma_last_index_bounds(p: StyleProps, k: Seq<char>)
    ensures
        -1 <= last_index(p, k) < p.len(),
        last_index(p, k) >= 0 ==> p[last_index(p, k)].0 == k,
    decreases p.len(),
{
    if p.len() > 0 {
        lemma_last_index_bounds(p.drop_last(), k);
    }
}

/// The properties a style name sets beyond `display` (the match of the
/// stylesheet; names it does not know get a body margin).
pub open spec fn style_arm(name: Seq<char>, base: StyleProps) -> StyleProps {
    if name == "s1n"@ {
        set_prop(set_prop(set_prop(set_prop(base, "font-size"@, "2em"@), "font-weight"@, "bold"@), "line-height"@, "1.2"@), "margin"@, ".67em 0 0"@)
    } else if name == "s33"@ {
        set_prop(set_prop(base, "font-weight"@, "bold"@), "margin"@, "2.68em 0"@)
    } else if name == "s3e"@ {
        set_prop(set_prop(base, "font-weight"@, "bold"@), "margin"@, "1.33em 0"@)
    } else if name == "s1ze"@ {
        set_prop(set_prop(set_prop(base, "font-weight"@, "bold"@), "text-align"@, "center"@), "margin"@, "1.33em 0"@)
    } else if name == "s37"@ {
        set_prop(set_prop(set_prop(set_prop(set_prop(set_prop(base, "font-size"@, "1.125em"@), "font-weight"@, "bold"@), "line-height"@, "1.23071"@), "text-align"@, "center"@), "text-indent"@, "1.709em"@), "margin"@, "1.75633em 0 4.1002em"@)
    } else if name == "s1fb"@ {
        set_prop(set_prop(set_prop(set_prop(set_prop(set_prop(base, "font-size"@, "1.125em"@), "font-weight"@, "bold"@), "line-height"@, "1.23071"@), "text-align"@, "center"@), "text-indent"@, "1.709em"@), "margin"@, ".975047em 0 3.31891em"@)
    } else if name == "s3ww"@ {
        set_prop(set_prop(set_prop(set_prop(set_prop(set_prop(base, "font-size"@, "1.125em"@), "font-weight"@, "bold"@), "line-height"@, "1.23071"@), "text-align"@, "center"@), "text-indent"@, "1.709em"@), "margin"@, ".975047em 0 4.1002em"@)
    } else if name == "s5g"@ || name == "s5g1"@ {
        set_prop(base, "margin"@, "3.75em 0 0"@)
    } else if name == "s3k"@ || name == "s3k1"@ {
        set_prop(base, "margin"@, "0"@)
    } else if name == "s3g"@ || name == "s3g1"@ {
        set_prop(base, "margin"@, ".9375em 0 0"@)
    } else if name == "s4m"@ {
        set_prop(set_prop(base, "text-align"@, "right"@), "margin"@, "0"@)
    } else if name == "s9p"@ {
        set_prop(set_prop(base, "text-align"@, "center"@), "margin"@, "1.875em 0 0"@)
    } else if name == "s9s"@ {
        set_prop(base, "margin"@, "2.8125em 0 0"@)
    } else if name == "s16n"@ {
        set_prop(set_prop(base, "text-align"@, "right"@), "margin"@, ".9375em 0 0"@)
    } else if name == "swp"@ {
        set_prop(set_prop(base, "text-align"@, "center"@), "margin"@, "7.5em 0 0"@)
    } else if name == "sws"@ {
        set_prop(set_prop(base, "text-align"@, "center"@), "margin"@, "0"@)
    } else if name == "swu"@ {
        set_prop(set_prop(base, "text-align"@, "right"@), "margin"@, "1.875em 0 0"@)
    } else if name == "sww"@ {
        set_prop(set_prop(base, "text-align"@, "right"@), "margin"@, "0 0 5.625em"@)
    } else if name == "s1r"@ {
        set_prop(base, "margin"@, "1.34em 0 0"@)
    } else if name == "s1t"@ {
        set_prop(set_prop(base, "text-indent"@, "2em"@), "margin"@, "0"@)
    } else if name == "s1v"@ {
        set_prop(base, "margin"@, "0 0 0 6.25%"@)
    } else if name == "s"@ {
        set_prop(base, "margin"@, "1.9375em 0 0"@)
    } else if name == "s1"@ {
        set_prop(base, "margin"@, "2.9375em 0 0"@)
    } else if name == "s1g"@ {
        set_prop(base, "margin"@, "2.9375em 0 1em"@)
    } else if name == "ss"@ {
        set_prop(set_prop(base, "text-indent"@, "2.7em"@), "margin"@, "1em 0 0"@)
    } else if name == "su"@ {
        set_prop(base, "margin"@, "1em 0 0"@)
    } else if name == "sh"@ {
        set_prop(set_prop(base, "display"@, "block"@), "margin"@, "1.3025em auto"@)
    } else if name == "sy"@ {
        set_prop(set_prop(base, "margin"@, "1em 0 0 6.25%"@), "width"@, "25.391%"@)
    } else if name == "s57z"@ {
        set_prop(set_prop(base, "width"@, "8.125em"@), "height"@, "8.125em"@)
    } else if name == "s58b"@ {
        set_prop(set_prop(base, "text-indent"@, "12.812%"@), "margin"@, "1em 0 0"@)
    } else if name == "s59d"@ {
        set_prop(set_prop(base, "text-indent"@, "28.125%"@), "margin"@, "1em 0 0"@)
    } else if name == "s5a0"@ {
        set_prop(base, "margin"@, "1.3025em 0 0"@)
    } else {
        set_prop(base, "margin"@, "1em 0"@)
    }
}

/// A heading-like style name that an ordinary paragraph uses.
pub open spec fn plain_heading_name(name: Seq<char>) -> bool {
    name == "s1n"@ || name == "s33"@ || name == "s37"@ || name == "s1fb"@ || name == "s3ww"@ || name == "s3e"@ || name == "s1ze"@
}

/// The computed style of a KFX style name: `display: block` unless the
/// name is `s57z`; the `s1r` table-of-contents title; ordinary paragraphs
/// under heading-like names keep only a body margin; otherwise the table.
pub open spec fn computed_style_spec(name: Seq<char>, text: Seq<char>, is_heading: bool) -> StyleProps {
    let base = if name != "s57z"@ { set_prop(Seq::empty(), "display"@, "block"@) } else { Seq::empty() };
    if !is_heading && name == "s1r"@ {
        if trim(text) == "目录"@ {
            set_prop(set_prop(set_prop(set_prop(set_prop(base, "font-size"@, "2em"@), "font-weight"@, "bold"@), "text-align"@, "center"@), "text-indent"@, "1em"@), "margin"@, "0 0 .980552em"@)
        } else {
            set_prop(base, "margin"@, "1.34em 0 0"@)
        }
    } else if !is_heading && plain_heading_name(name) {
        set_prop(base, "margin"@, "1em 0"@)
    } else {
        style_arm(name, base)
    }
}

fn style_arm_of(style_name: &str, style: KfxComputedStyle) -> (r: KfxComputedStyle)
    ensures
        r@ == style_arm(style_name@, style@),
{
    if str_eq(style_name, "s1n") {
        style.with("font-size", "2em").with("font-weight", "bold").with("line-height", "1.2").with("margin", ".67em 0 0")
    } else if str_eq(style_name, "s33") {
        style.with("font-weight", "bold").with("margin", "2.68em 0")
    } else if str_eq(style_name, "s3e") {
        style.with("font-weight", "bold").with("margin", "1.33em 0")
    } else if str_eq(style_name, "s1ze") {
        style.with("font-weight", "bold").with("text-align", "center").with("margin", "1.33em 0")
    } else if str_eq(style_name, "s37") {
        style.with("font-size", "1.125em").with("font-weight", "bold").with("line-height", "1.23071").with("text-align", "center").with("text-indent", "1.709em").with("margin", "1.75633em 0 4.1002em")
    } else if str_eq(style_name, "s1fb") {
        style.with("font-size", "1.125em").with("font-weight", "bold").with("line-height", "1.23071").with("text-align", "center").with("text-indent", "1.709em").with("margin", ".975047em 0 3.31891em")
    } else if str_eq(style_name, "s3ww") {
        style.with("font-size", "1.125em").with("font-weight", "bold").with("line-height", "1.23071").with("text-align", "center").with("text-indent", "1.709em").with("margin", ".975047em 0 4.1002em")
    } else if str_eq(style_name, "s5g") || str_eq(style_name, "s5g1") {
        style.with("margin", "3.75em 0 0")
    } else if str_eq(style_name, "s3k") || str_eq(style_name, "s3k1") {
        style.with("margin", "0")
    } else if str_eq(style_name, "s3g") || str_eq(style_name, "s3g1") {
        style.with("margin", ".9375em 0 0")
    } else if str_eq(style_name, "s4m") {
        style.with("text-align", "right").with("margin", "0")
    } else if str_eq(style_name, "s9p") {
        style.with("text-align", "center").with("margin", "1.875em 0 0")
    } else if str_eq(style_name, "s9s") {
        style.with("margin", "2.8125em 0 0")
    } else if str_eq(style_name, "s16n") {
        style.with("text-align", "right").with("margin", ".9375em 0 0")
    } else if str_eq(style_name, "swp") {
        style.with("text-align", "center").with("margin", "7.5em 0 0")
    } else if str_eq(style_name, "sws") {
        style.with("text-align", "center").with("margin", "0")
    } else if str_eq(style_name, "swu") {
        style.with("text-align", "right").with("margin", "1.875em 0 0")
    } else if str_eq(style_name, "sww") {
        style.with("text-align", "right").with("margin", "0 0 5.625em")
    } else if str_eq(style_name, "s1r") {
        style.with("margin", "1.34em 0 0")
    } else if str_eq(style_name, "s1t") {
        style.with("text-indent", "2em").with("margin", "0")
    } else if str_eq(style_name, "s1v") {
        style.with("margin", "0 0 0 6.25%")
    } else if str_eq(style_name, "s") {
        style.with("margin", "1.9375em 0 0")
    } else if str_eq(style_name, "s1") {
        style.with("margin", "2.9375em 0 0")
    } else if str_eq(style_name, "s1g") {
        style.with("margin", "2.9375em 0 1em")
    } else if str_eq(style_name, "ss") {
        style.with("text-indent", "2.7em").with("margin", "1em 0 0")
    } else if str_eq(style_name, "su") {
        style.with("margin", "1em 0 0")
    } else if str_eq(style_name, "sh") {
        style.with("display", "block").with("margin", "1.3025em auto")
    } else if str_eq(style_name, "sy") {
        style.with("margin", "1em 0 0 6.25%").with("width", "25.391%")
    } else if str_eq(style_name, "s57z") {
        style.with("width", "8.125em").with("height", "8.125em")
    } else if str_eq(style_name, "s58b") {
        style.with("text-indent", "12.812%").with("margin", "1em 0 0")
    } else if str_eq(style_name, "s59d") {
        style.with("text-indent", "28.125%").with("margin", "1em 0 0")
    } else if str_eq(style_name, "s5a0") {
        style.with("margin", "1.3025em 0 0")
    } else {
        style.with("margin", "1em 0")
    }
}

/// The computed style of a KFX style name, for a heading or a paragraph
/// whose text is `text`.
pub fn kfx_computed_style(style_name: &str, text: &str, is_heading: bool) -> (r: KfxComputedStyle)
    ensures
        r@ == computed_style_spec(style_name@, text@, is_heading),
{
    let mut style = KfxComputedStyle::new();
    if !str_eq(style_name, "s57z") {
        style = style.with("display", "block");
    }
    if !is_heading && str_eq(style_name, "s1r") {
        let trimmed = trim_str(text);
        if str_eq(trimmed.as_str(), "目录") {
            return style.with("font-size", "2em").with("font-weight", "bold").with("text-align", "center").with("text-indent", "1em").with("margin", "0 0 .980552em");
        }
        return style.with("margin", "1.34em 0 0");
    }
    if !is_heading && (str_eq(style_name, "s1n") || str_eq(style_name, "s33") || str_eq(style_name, "s37")
        || str_eq(style_name, "s1fb") || str_eq(style_name, "s3ww") || str_eq(style_name, "s3e") || str_eq(style_name, "s1ze")) {
        return style.with("margin", "1em 0");
    }
    style_arm_of(style_name, style)
}

proof fn lemma_get_last(p: StyleProps, k: Seq<char>)
    ensures
        get_prop(p, k) == if last_index(p, k) >= 0 { Some(p[last_index(p, k)].1) } else { None },
    decreases p.len(),
{
    if p.len() > 0 {
        lemma_get_last(p.drop_last(), k);
        lemma_last_index_bounds(p.drop_last(), k);
    }
}

proof fn lemma_last_index_update(p: StyleProps, j: int, k: Seq<char>, v: Seq<char>, k2: Seq<char>)
    requires
        0 <= j < p.len(),
        p[j].0 == k,
    ensures
        last_index(p.update(j, (k, v)), k2) == last_index(p, k2),
    decreases p.len(),
{
    let q = p.update(j, (k, v));
    if j < p.len() - 1 {
        assert(q.drop_last() =~= p.drop_last().update(j, (k, v)));
        lemma_last_index_update(p.drop_last(), j, k, v, k2);
    } else {
        assert(q.drop_last() =~= p.drop_last());
    }
}

/// Setting a property is read back: the property reads as the value set,
/// and every other property reads as before.
pub proof fn lemma_style_read_after_write(p: StyleProps, k: Seq<char>, v: Seq<char>, other: Seq<char>)
    ensures
        get_prop(set_prop(p, k, v), k) == Some(v),
        other != k ==> get_prop(set_prop(p, k, v), other) == get_prop(p, other),
{
    lemma_last_index_bounds(p, k);
    let q = set_prop(p, k, v);
    lemma_get_last(q, k);
    lemma_get_last(q, other);
    lemma_get_last(p, other);
    lemma_last_index_bounds(p, other);
    if last_index(p, k) < 0 {
        assert(q.drop_last() =~= p);
    } else {
        let j = last_index(p, k);
        lemma_last_index_update(p, j, k, v, k);
        lemma_last_index_update(p, j, k, v, other);
        lemma_last_index_bounds(q, other);
    }
}

} // verus!
