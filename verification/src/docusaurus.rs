//! The sidebar tree walker: menu items, category detection, position
//! assignment, and the pre-order chapter collection.

use vstd::prelude::*;
use vstd::string::*;

use crate::text::contains_substr;
use crate::text::dot_tail;
use crate::text::is_digit;
use crate::text::lemma_dec_digits;
use crate::text::lemma_dec_ext_ne;
use crate::text::lemma_prepend_cancel;
use crate::text::push_dec;
use crate::text::spec_contains;
use crate::text::spec_dec;

verus! {

/// One sidebar entry: a navigable page or a category heading, as plain data.
#[derive(Debug, Clone)]
pub struct Chapter {
    /// The entry's visible label text.
    pub title: String,
    /// The entry's href as found in the document; `"#"` marks a
    /// non-navigable category heading.
    pub relative_link: String,
    /// Chapter's position, like "1", "1.1", "1.1.1", etc.
    pub position: String,
}

/// The mathematical image of a `Chapter`: its three fields as character
/// sequences.
pub ghost struct ChapterV {
    pub title: Seq<char>,
    pub relative_link: Seq<char>,
    pub position: Seq<char>,
}

impl View for Chapter {
    type V = ChapterV;

    open spec fn view(&self) -> ChapterV {
        ChapterV {
            title: self.title@,
            relative_link: self.relative_link@,
            position: self.position@,
        }
    }
}

impl DeepView for Chapter {
    type V = ChapterV;

    open spec fn deep_view(&self) -> ChapterV {
        self.view()
    }
}

impl Chapter {
    /// Chapter's relative URL.
    pub fn href(&self) -> (r: String)
        ensures
            r@ == self@.relative_link,
    {
        self.relative_link.clone()
    }

    /// Chapter's label.
    pub fn label(&self) -> (r: String)
        ensures
            r@ == self@.title,
    {
        self.title.clone()
    }
}

/// The link sub-element of a menu item, with the attributes the walker reads.
/// A missing attribute is `None`.
#[derive(Debug, Clone)]
pub struct MenuLink {
    /// The `href` attribute.
    pub href: Option<String>,
    /// The visible inner text.
    pub text: Option<String>,
}

/// One sidebar menu node, materialized as plain data: its link sub-element
/// (if the document holds one), its class attribute, and the child items
/// that expanding it reveals.
#[derive(Debug)]
pub struct MenuItem {
    /// The `.menu__link` sub-element, if found.
    pub link: Option<MenuLink>,
    /// The item's class attribute, if present and readable.
    pub css_classes: Option<String>,
    /// The child list items revealed once the item is expanded.
    pub children: Vec<MenuItem>,
}

/// A way the document failed to match the assumed sidebar shape.
#[derive(Debug, Clone, Copy, PartialEq, Eq, Structural)]
pub enum StructureError {
    /// A list item without a link sub-element.
    MissingLink,
    /// A link without an `href` attribute.
    MissingHref,
    /// A link without visible inner text.
    MissingLabel,
}

/// The class marker identifying expandable categories.
pub open spec fn category_marker() -> Seq<char> {
    "theme-doc-sidebar-item-category"@
}

/// A class attribute marks a category iff it is present and contains the
/// category marker.
pub open spec fn spec_is_category(css_classes: Option<Seq<char>>) -> bool {
    match css_classes {
        Some(c) => spec_contains(c, category_marker()),
        None => false,
    }
}

/// Checks the item's class attribute to see if it's a category.
pub fn is_category(css_classes: &Option<String>) -> (r: bool)
    ensures
        r == spec_is_category(css_classes.deep_view()),
{
    match css_classes {
        Some(c) => contains_substr(c.as_str(), "theme-doc-sidebar-item-category"),
        None => false,
    }
}

/// The dot-separated 1-based position of the child at `idx` under `parent`.
pub open spec fn spec_position(idx: nat, parent: Option<Seq<char>>) -> Seq<char> {
    match parent {
        Some(p) => p + "."@ + spec_dec(idx + 1),
        None => spec_dec(idx + 1),
    }
}

/// Returns the position of the chapter, like "1", "1.1", "1.1.1", etc.
pub fn get_chapter_position(idx: usize, parent_position: &Option<String>) -> (r: String)
    requires
        idx < usize::MAX,
    ensures
        r@ == spec_position(idx as nat, parent_position.deep_view()),
{
    let mut r = String::new();
    match parent_position {
        Some(p) => {
            r.append(p.as_str());
            r.append(".");
            push_dec(idx + 1, &mut r);
            proof {
                assert(r@ =~= spec_position(idx as nat, parent_position.deep_view()));
            }
        },
        None => {
            push_dec(idx + 1, &mut r);
            proof {
                assert(r@ =~= spec_position(idx as nat, parent_position.deep_view()));
            }
        },
    }
    r
}

/// What the walker reads of one menu item: the label text and the href of
/// its link sub-element, or the structural error when one is missing.
pub open spec fn spec_item_fields(item: MenuItem) -> Result<(Seq<char>, Seq<char>), StructureError> {
    match item.link {
        None => Err(StructureError::MissingLink),
        Some(link) => match link.href {
            None => Err(StructureError::MissingHref),
            Some(h) => match link.text {
                None => Err(StructureError::MissingLabel),
                Some(t) => Ok((t@, h@)),
            },
        },
    }
}

/// Creates a chapter from a given list item.
pub fn create_chapter_from_item(
    item: &MenuItem,
    idx: usize,
    parent_position: &Option<String>,
) -> (r: Result<Chapter, StructureError>)
    requires
        idx < usize::MAX,
    ensures
        match r {
            Ok(c) => spec_item_fields(*item) matches Ok(th) && c@.title == th.0
                && c@.relative_link == th.1 && c@.position == spec_position(
                idx as nat,
                parent_position.deep_view(),
            ),
            Err(e) => spec_item_fields(*item) matches Err(e2) && e == e2,
        },
{
    match &item.link {
        None => Err(StructureError::MissingLink),
        Some(link) => match &link.href {
            None => Err(StructureError::MissingHref),
            Some(h) => match &link.text {
                None => Err(StructureError::MissingLabel),
                Some(t) => Ok(
                    Chapter {
                        title: t.clone(),
                        relative_link: h.clone(),
                        position: get_chapter_position(idx, parent_position),
                    },
                ),
            },
        },
    }
}

/// The chapters discovered from `items[idx..]` under `parent`, flattened in
/// pre-order with their positions, or the first structural error met.  A
/// category's children are walked under the category's own position;
/// children of a non-category item are never looked at.
pub open spec fn spec_walk(items: Seq<MenuItem>, parent: Option<Seq<char>>, idx: int) -> Result<
    Seq<ChapterV>,
    StructureError,
>
    decreases items, items.len() - idx,
{
    if idx < 0 || idx >= items.len() {
        Ok(Seq::empty())
    } else {
        let item = items[idx];
        match spec_item_fields(item) {
            Err(e) => Err(e),
            Ok(th) => {
                let pos = spec_position(idx as nat, parent);
                let ch = ChapterV { title: th.0, relative_link: th.1, position: pos };
                let sub = if spec_is_category(item.css_classes.deep_view()) {
                    spec_walk(item.children@, Some(pos), 0)
                } else {
                    Ok(Seq::empty())
                };
                match sub {
                    Err(e) => Err(e),
                    Ok(subs) => match spec_walk(items, parent, idx + 1) {
                        Err(e) => Err(e),
                        Ok(rest) => Ok(seq![ch] + subs + rest),
                    },
                }
            },
        }
    }
}

/// Recursively collects chapters starting from the given menu items.
pub fn collect_chapters(items: &Vec<MenuItem>, parent_position: Option<String>) -> (r: Result<
    Vec<Chapter>,
    StructureError,
>)
    ensures
        match r {
            Ok(chs) => spec_walk(items@, parent_position.deep_view(), 0) matches Ok(v) && v
                == chs.deep_view(),
            Err(e) => spec_walk(items@, parent_position.deep_view(), 0) matches Err(e2) && e == e2,
        },
    decreases items@,
{
    let ghost pv = parent_position.deep_view();
    let mut chapters: Vec<Chapter> = Vec::new();
    let mut idx: usize = 0;
    while idx < items.len()
        invariant
            idx <= items@.len(),
            pv == parent_position.deep_view(),
            spec_walk(items@, pv, 0) == (match spec_walk(items@, pv, idx as int) {
                Ok(rest) => Ok::<Seq<ChapterV>, StructureError>(chapters.deep_view() + rest),
                Err(e) => Err::<Seq<ChapterV>, StructureError>(e),
            }),
        decreases items@.len() - idx,
    {
        let item = &items[idx];
        let chapter = match create_chapter_from_item(item, idx, &parent_position) {
            Ok(c) => c,
            Err(e) => {
                return Err(e);
            },
        };
        let ghost chv = chapter@;
        let ghost before = chapters.deep_view();
        if is_category(&item.css_classes) {
            let sub_parent = chapter.position.clone();
            chapters.push(chapter);
            proof {
                assert(chapters.deep_view() =~= before + seq![chv]);
                assert(decreases_to!(items@ => item.children@));
            }
            match collect_chapters(&item.children, Some(sub_parent)) {
                Ok(mut sub) => {
                    let ghost mid = chapters.deep_view();
                    let ghost subv = sub.deep_view();
                    chapters.append(&mut sub);
                    proof {
                        assert(chapters.deep_view() =~= mid + subv);
                    }
                },
                Err(e) => {
                    return Err(e);
                },
            }
        } else {
            chapters.push(chapter);
            proof {
                assert(chapters.deep_view() =~= before + seq![chv]);
            }
        }
        idx = idx + 1;
        proof {
            assert(spec_walk(items@, pv, 0) == (match spec_walk(items@, pv, idx as int) {
                Ok(rest) => Ok::<Seq<ChapterV>, StructureError>(chapters.deep_view() + rest),
                Err(e) => Err::<Seq<ChapterV>, StructureError>(e),
            })) by {
                assert(forall|a: Seq<ChapterV>, b: Seq<ChapterV>, c: Seq<ChapterV>|
                    #[trigger] ((a + b) + c) == a + (b + c)) by {
                    assert(forall|a: Seq<ChapterV>, b: Seq<ChapterV>, c: Seq<ChapterV>|
                        #[trigger] ((a + b) + c) =~= a + (b + c));
                }
            }
        }
    }
    proof {
        assert(chapters.deep_view() + Seq::<ChapterV>::empty() =~= chapters.deep_view());
    }
    Ok(chapters)
}


/// The leading part every child position under `parent` shares: the parent
/// position followed by a dot, or nothing at the top level.
pub open spec fn pos_prefix(parent: Option<Seq<char>>) -> Seq<char> {
    match parent {
        Some(p) => p + "."@,
        None => Seq::empty(),
    }
}

/// A position under `parent` is the shared prefix followed by a numeral.
pub proof fn lemma_position_shape(idx: nat, parent: Option<Seq<char>>)
    ensures
        spec_position(idx, parent) == pos_prefix(parent) + spec_dec(idx + 1),
{
    if parent is None {
        assert(spec_dec(idx + 1) =~= Seq::<char>::empty() + spec_dec(idx + 1));
    }
}

/// A well-formed position string: never empty, digits and dots only.
pub open spec fn pos_chars_ok(p: Seq<char>) -> bool {
    p.len() >= 1 && forall|i: int| 0 <= i < p.len() ==> is_digit(#[trigger] p[i]) || p[i] == '.'
}

/// A usable parent position: none, or itself well formed.
pub open spec fn parent_ok(parent: Option<Seq<char>>) -> bool {
    match parent {
        Some(p) => pos_chars_ok(p),
        None => true,
    }
}

/// Every assigned position is a well-formed position string.
pub proof fn lemma_position_chars(idx: nat, parent: Option<Seq<char>>)
    requires
        parent_ok(parent),
    ensures
        pos_chars_ok(spec_position(idx, parent)),
{
    lemma_position_shape(idx, parent);
    lemma_dec_digits(idx + 1);
    reveal_strlit(".");
    let pre = pos_prefix(parent);
    let s = spec_position(idx, parent);
    assert(s.len() == pre.len() + spec_dec(idx + 1).len());
    assert forall|i: int| 0 <= i < s.len() implies is_digit(s[i]) || s[i] == '.' by {
        if i < pre.len() {
            assert(s[i] == pre[i]);
            match parent {
                Some(p) => {
                    if i < p.len() {
                        assert(pre[i] == p[i]);
                    } else {
                        assert(pre[i] == "."@[i - p.len()]);
                    }
                },
                None => {
                },
            }
        } else {
            assert(s[i] == spec_dec(idx + 1)[i - pre.len()]);
        }
    }
}

/// `p` is the position of the child of `parent` at index `k`, or descends
/// from it below a dot.
pub open spec fn is_pos_ext(p: Seq<char>, parent: Option<Seq<char>>, k: nat) -> bool {
    exists|t: Seq<char>| dot_tail(t) && p == #[trigger] (spec_position(k, parent) + t)
}

/// `p` extends the position of some child of `parent` at index `lo` or later.
pub open spec fn pos_ext_from(p: Seq<char>, parent: Option<Seq<char>>, lo: int) -> bool {
    exists|k: nat| lo <= k && #[trigger] is_pos_ext(p, parent, k)
}

/// Positions descending from two different children of one parent never
/// coincide, however each is extended.
pub proof fn lemma_pos_ext_ne(
    parent: Option<Seq<char>>,
    a: nat,
    b: nat,
    t1: Seq<char>,
    t2: Seq<char>,
)
    requires
        a != b,
        dot_tail(t1),
        dot_tail(t2),
    ensures
        spec_position(a, parent) + t1 != spec_position(b, parent) + t2,
{
    lemma_position_shape(a, parent);
    lemma_position_shape(b, parent);
    let pre = pos_prefix(parent);
    lemma_dec_ext_ne(a + 1, b + 1, t1, t2);
    if spec_position(a, parent) + t1 == spec_position(b, parent) + t2 {
        assert((pre + spec_dec(a + 1)) + t1 =~= pre + (spec_dec(a + 1) + t1));
        assert((pre + spec_dec(b + 1)) + t2 =~= pre + (spec_dec(b + 1) + t2));
        lemma_prepend_cancel(pre, spec_dec(a + 1) + t1, spec_dec(b + 1) + t2);
    }
}

/// Law: the positions a walk assigns describe the tree faithfully.  Every
/// chapter found from index `idx` on extends the position of a child at
/// that index or later, every position is a well-formed position string,
/// and no two chapters of one walk ever share a position.
pub proof fn lemma_walk_positions(items: Seq<MenuItem>, parent: Option<Seq<char>>, idx: int)
    requires
        parent_ok(parent),
        0 <= idx,
        spec_walk(items, parent, idx) is Ok,
    ensures
        ({
            let chs = spec_walk(items, parent, idx)->Ok_0;
            &&& forall|i: int|
                0 <= i < chs.len() ==> pos_ext_from(#[trigger] chs[i].position, parent, idx)
            &&& forall|i: int| 0 <= i < chs.len() ==> pos_chars_ok(#[trigger] chs[i].position)
            &&& forall|i: int, j: int|
                0 <= i < j < chs.len() ==> chs[i].position != chs[j].position
        }),
    decreases items, items.len() - idx,
{
    let chs = spec_walk(items, parent, idx)->Ok_0;
    if idx >= items.len() {
    } else {
        let item = items[idx];
        let pos = spec_position(idx as nat, parent);
        let th = spec_item_fields(item)->Ok_0;
        let ch = ChapterV { title: th.0, relative_link: th.1, position: pos };
        let cat = spec_is_category(item.css_classes.deep_view());
        let subs = if cat {
            spec_walk(item.children@, Some(pos), 0)->Ok_0
        } else {
            Seq::<ChapterV>::empty()
        };
        let rest = spec_walk(items, parent, idx + 1)->Ok_0;
        assert(chs == seq![ch] + subs + rest);
        lemma_position_chars(idx as nat, parent);
        if cat {
            assert(decreases_to!(items => item.children@));
            lemma_walk_positions(item.children@, Some(pos), 0);
        }
        lemma_walk_positions(items, parent, idx + 1);
        reveal_strlit(".");

        // Where each region of the concatenation sits.
        let head = seq![ch] + subs;
        assert(chs.len() == 1 + subs.len() + rest.len());
        assert(chs[0] == ch);
        assert forall|i: int| 1 <= i < 1 + subs.len() implies chs[i] == subs[i - 1] by {
            assert(chs[i] == head[i]);
            assert(head[i] == subs[i - 1]);
        }
        assert forall|i: int| 1 + subs.len() <= i < chs.len() implies chs[i] == rest[i - 1
            - subs.len()] by {
            assert(chs[i] == rest[i - head.len()]);
        }

        // The chapter at `idx` itself.
        assert(pos =~= spec_position(idx as nat, parent) + Seq::<char>::empty());
        assert(is_pos_ext(pos, parent, idx as nat));

        // Every chapter below the category extends `pos` below a dot, so it
        // is longer than `pos` and differs from it.
        assert forall|m: int| 0 <= m < subs.len() implies is_pos_ext(
            subs[m].position,
            parent,
            idx as nat,
        ) && subs[m].position != pos by {
            assert(pos_ext_from(subs[m].position, Some(pos), 0));
            let k = choose|k: nat| 0 <= k && is_pos_ext(subs[m].position, Some(pos), k);
            assert(is_pos_ext(subs[m].position, Some(pos), k));
            let t = choose|t: Seq<char>|
                dot_tail(t) && subs[m].position == spec_position(k, Some(pos)) + t;
            lemma_position_shape(k, Some(pos));
            lemma_dec_digits(k + 1);
            let tt = "."@ + spec_dec(k + 1) + t;
            assert(subs[m].position =~= spec_position(idx as nat, parent) + tt) by {
                assert(spec_position(k, Some(pos)) + t =~= pos + ("."@ + spec_dec(k + 1) + t));
            }
            assert(tt[0] == "."@[0]);
            assert(dot_tail(tt));
            assert(is_pos_ext(subs[m].position, parent, idx as nat));
            assert(subs[m].position.len() == pos.len() + tt.len());
            assert(tt.len() >= 1);
        }

        // Every later chapter extends the position of a later child, so it
        // differs from the chapter at `idx`.
        assert forall|m: int| 0 <= m < rest.len() implies pos_ext_from(rest[m].position, parent, idx)
            && rest[m].position != pos by {
            assert(pos_ext_from(rest[m].position, parent, idx + 1));
            let k = choose|k: nat| idx + 1 <= k && is_pos_ext(rest[m].position, parent, k);
            assert(is_pos_ext(rest[m].position, parent, k));
            let t = choose|t: Seq<char>|
                dot_tail(t) && rest[m].position == spec_position(k, parent) + t;
            assert(pos + Seq::<char>::empty() =~= pos);
            lemma_pos_ext_ne(parent, idx as nat, k, Seq::empty(), t);
        }

        // A chapter under the category and a later chapter never collide:
        // they descend from different children of `parent`.
        assert forall|m: int, n: int|
            0 <= m < subs.len() && 0 <= n < rest.len() implies subs[m].position != rest[
            n
        ].position by {
            assert(is_pos_ext(subs[m].position, parent, idx as nat));
            let t1 = choose|t: Seq<char>|
                dot_tail(t) && subs[m].position == spec_position(idx as nat, parent) + t;
            let k2 = choose|k: nat| idx + 1 <= k && is_pos_ext(rest[n].position, parent, k);
            assert(is_pos_ext(rest[n].position, parent, k2));
            let t2 = choose|t: Seq<char>|
                dot_tail(t) && rest[n].position == spec_position(k2, parent) + t;
            lemma_pos_ext_ne(parent, idx as nat, k2, t1, t2);
        }

        // Assemble the three claims over the whole concatenation.
        assert forall|i: int| 0 <= i < chs.len() implies pos_ext_from(
            #[trigger] chs[i].position,
            parent,
            idx,
        ) by {
            if i == 0 {
                assert(is_pos_ext(chs[i].position, parent, idx as nat));
            } else if i < 1 + subs.len() {
                assert(chs[i] == subs[i - 1]);
                assert(is_pos_ext(chs[i].position, parent, idx as nat));
            } else {
                assert(chs[i] == rest[i - 1 - subs.len()]);
            }
        }
        assert forall|i: int| 0 <= i < chs.len() implies pos_chars_ok(
            #[trigger] chs[i].position,
        ) by {
            if i == 0 {
            } else if i < 1 + subs.len() {
                assert(chs[i] == subs[i - 1]);
            } else {
                assert(chs[i] == rest[i - 1 - subs.len()]);
            }
        }
        assert forall|i: int, j: int|
            0 <= i < j < chs.len() implies chs[i].position != chs[j].position by {
            let ns = subs.len() as int;
            if i == 0 {
                if j < 1 + ns {
                    assert(chs[j] == subs[j - 1]);
                } else {
                    assert(chs[j] == rest[j - 1 - ns]);
                }
            } else if i < 1 + ns {
                assert(chs[i] == subs[i - 1]);
                if j < 1 + ns {
                    assert(chs[j] == subs[j - 1]);
                } else {
                    assert(chs[j] == rest[j - 1 - ns]);
                }
            } else {
                assert(chs[i] == rest[i - 1 - ns]);
                assert(chs[j] == rest[j - 1 - ns]);
            }
        }
    }
}

} // verus!
