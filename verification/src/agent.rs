//! Page-agent helpers: the event scripts of pointer and touch actions, the
//! viewport resize request, page region detection, and the comparison of
//! element fingerprints behind selector healing.

use vstd::prelude::*;

use crate::text::{
    contains, i64_text, int_text, lower, str_contains, str_trim, to_ascii_lowercase, trim,
};

verus! {

// ---------------------------------------------------------------------------
// Pointer and touch scripts.

/// The mouse-event fields of a trusted pointer action.
pub open spec fn mouse_spec(buttons: int, detail: int, x: int, y: int, px: int, py: int) -> Seq<char> {
    "button:0,buttons:"@ + int_text(buttons) + ",detail:"@ + int_text(detail) + ",clientX:"@ + int_text(x)
        + ",clientY:"@ + int_text(y) + ",screenX:"@ + int_text(x) + ",screenY:"@ + int_text(y) + ",pageX:"@
        + int_text(px) + ",pageY:"@ + int_text(py) + ",x:"@ + int_text(x) + ",y:"@ + int_text(y)
        + ",offsetX:0,offsetY:0,movementX:0,movementY:0"@
}

/// The pointer-event fields: the mouse fields with no detail, then the
/// pointer's own; pressure is `0.5` while a button is down.
pub open spec fn pointer_spec(buttons: int, x: int, y: int, px: int, py: int) -> Seq<char> {
    mouse_spec(buttons, 0, x, y, px, py) + ",pointerId:1,width:1,height:1,pressure:"@
        + (if buttons == 0 { "0"@ } else { "0.5"@ })
        + ",tangentialPressure:0,tiltX:0,tiltY:0,twist:0,pointerType:'mouse',isPrimary:true"@
}

pub fn mouse(buttons: i64, detail: i64, x: i64, y: i64, page_x: i64, page_y: i64) -> (r: String)
    ensures
        r@ == mouse_spec(buttons as int, detail as int, x as int, y as int, page_x as int, page_y as int),
{
    let xs = i64_text(x);
    let ys = i64_text(y);
    let mut r = String::from_str("button:0,buttons:");
    r.append(i64_text(buttons).as_str());
    r.append(",detail:");
    r.append(i64_text(detail).as_str());
    r.append(",clientX:");
    r.append(xs.as_str());
    r.append(",clientY:");
    r.append(ys.as_str());
    r.append(",screenX:");
    r.append(xs.as_str());
    r.append(",screenY:");
    r.append(ys.as_str());
    r.append(",pageX:");
    r.append(i64_text(page_x).as_str());
    r.append(",pageY:");
    r.append(i64_text(page_y).as_str());
    r.append(",x:");
    r.append(xs.as_str());
    r.append(",y:");
    r.append(ys.as_str());
    r.append(",offsetX:0,offsetY:0,movementX:0,movementY:0");
    r
}

pub fn pointer(buttons: i64, x: i64, y: i64, page_x: i64, page_y: i64) -> (r: String)
    ensures
        r@ == pointer_spec(buttons as int, x as int, y as int, page_x as int, page_y as int),
{
    let mut r = mouse(buttons, 0, x, y, page_x, page_y);
    r.append(",pointerId:1,width:1,height:1,pressure:");
    if buttons == 0 {
        r.append("0");
    } else {
        r.append("0.5");
    }
    r.append(",tangentialPressure:0,tiltX:0,tiltY:0,twist:0,pointerType:'mouse',isPrimary:true");
    r
}

/// The trusted click sequence at a point on the node that `target`
/// evaluates to: pointerdown, mousedown, focus, pointerup, mouseup, click.
pub open spec fn click_spec(target: Seq<char>, x: int, y: int, px: int, py: int) -> Seq<char> {
    "let n="@ + target + ";n.dispatchEvent({type:'pointerdown',isTrusted:true,"@ + pointer_spec(1, x, y, px, py)
        + "});n.dispatchEvent({type:'mousedown',isTrusted:true,"@ + mouse_spec(1, 1, x, y, px, py)
        + "});if(n.focus){n.focus();}n.dispatchEvent({type:'pointerup',isTrusted:true,"@
        + pointer_spec(0, x, y, px, py) + "});n.dispatchEvent({type:'mouseup',isTrusted:true,"@
        + mouse_spec(0, 1, x, y, px, py) + "});n.dispatchEvent({type:'click',__agentClick:true,isTrusted:true,"@
        + mouse_spec(0, 1, x, y, px, py) + "})"@
}

pub fn click(target: &str, x: i64, y: i64, page_x: i64, page_y: i64) -> (r: String)
    ensures
        r@ == click_spec(target@, x as int, y as int, page_x as int, page_y as int),
{
    let mut r = String::from_str("let n=");
    r.append(target);
    r.append(";n.dispatchEvent({type:'pointerdown',isTrusted:true,");
    r.append(pointer(1, x, y, page_x, page_y).as_str());
    r.append("});n.dispatchEvent({type:'mousedown',isTrusted:true,");
    r.append(mouse(1, 1, x, y, page_x, page_y).as_str());
    r.append("});if(n.focus){n.focus();}n.dispatchEvent({type:'pointerup',isTrusted:true,");
    r.append(pointer(0, x, y, page_x, page_y).as_str());
    r.append("});n.dispatchEvent({type:'mouseup',isTrusted:true,");
    let up = mouse(0, 1, x, y, page_x, page_y);
    r.append(up.as_str());
    r.append("});n.dispatchEvent({type:'click',__agentClick:true,isTrusted:true,");
    r.append(up.as_str());
    r.append("})");
    r
}

/// A touch sequence on the node that `node` evaluates to, with the touch
/// point fields `touch`: touchstart, an optional touchmove, touchend.
pub open spec fn touch_script_spec(node: Seq<char>, touch: Seq<char>, include_move: bool) -> Seq<char> {
    "let n="@ + node + ";let t={type:'touchstart',touches:[{"@ + touch + "}],targetTouches:[{"@ + touch
        + "}],changedTouches:[{"@ + touch + "}]};n.dispatchEvent(t);"@
        + (if include_move {
            "n.dispatchEvent({type:'touchmove',touches:t.touches,targetTouches:t.targetTouches,changedTouches:[{"@
                + touch + "}]});"@
        } else {
            Seq::empty()
        })
        + "n.dispatchEvent({type:'touchend',touches:[],targetTouches:[],changedTouches:t.changedTouches});"@
}

/// Builds a touch event dispatch script.
pub fn touch_script(node: &str, touch: &str, include_move: bool) -> (r: String)
    ensures
        r@ == touch_script_spec(node@, touch@, include_move),
{
    let mut r = String::from_str("let n=");
    r.append(node);
    r.append(";let t={type:'touchstart',touches:[{");
    r.append(touch);
    r.append("}],targetTouches:[{");
    r.append(touch);
    r.append("}],changedTouches:[{");
    r.append(touch);
    r.append("}]};n.dispatchEvent(t);");
    if include_move {
        r.append("n.dispatchEvent({type:'touchmove',touches:t.touches,targetTouches:t.targetTouches,changedTouches:[{");
        r.append(touch);
        r.append("}]});");
    } else {
        assert(r@ =~= r@ + Seq::<char>::empty());
    }
    r.append("n.dispatchEvent({type:'touchend',touches:[],targetTouches:[],changedTouches:t.changedTouches});");
    r
}

/// The script that resizes the page's viewport, or the error for
/// dimensions that are not positive.
pub open spec fn viewport_spec(width: int, height: int) -> Result<Seq<char>, Seq<char>> {
    if width <= 0 || height <= 0 {
        Err("viewport width and height must be positive"@)
    } else {
        Ok("resizeTo("@ + int_text(width) + ","@ + int_text(height) + ")"@)
    }
}

/// Checks new viewport dimensions in CSS pixels and gives the script that
/// tells the page runtime; the page takes the dimensions once the script
/// has run.
pub fn set_viewport_size(width: i64, height: i64) -> (r: Result<String, String>)
    ensures
        crate::call_args::str_result(r) == viewport_spec(width as int, height as int),
{
    if width <= 0 || height <= 0 {
        return Err(String::from_str("viewport width and height must be positive"));
    }
    let mut r = String::from_str("resizeTo(");
    r.append(i64_text(width).as_str());
    r.append(",");
    r.append(i64_text(height).as_str());
    r.append(")");
    Ok(r)
}

// ---------------------------------------------------------------------------
// Page regions.

/// Landmark regions of a page.
#[derive(Debug, Clone, Copy, PartialEq, Eq)]
pub enum PageRegion {
    Header,
    Navigation,
    Main,
    Footer,
    Sidebar,
    Modal,
    Dialog,
    Banner,
    Complementary,
}

/// What region detection reads of an element.
#[derive(Debug)]
pub struct ElementSummary {
    pub tag: String,
    pub role: Option<String>,
    pub id: Option<String>,
    pub classes: Vec<String>,
    pub selector: String,
}

pub open spec fn opt_or_empty(o: Option<String>) -> Seq<char> {
    match o {
        Some(s) => s@,
        None => Seq::empty(),
    }
}

/// Words joined by single spaces.
pub open spec fn join_spaced(ws: Seq<Seq<char>>) -> Seq<char>
    decreases ws.len(),
{
    if ws.len() == 0 {
        Seq::empty()
    } else if ws.len() == 1 {
        ws[0]
    } else {
        join_spaced(ws.drop_last()) + " "@ + ws.last()
    }
}

/// The region an element marks and the confidence in percent: landmark
/// tags and roles first, then `modal`, `sidebar` or `aside` anywhere in the
/// tag, role, id and classes.
pub open spec fn region_spec(tag0: Seq<char>, role0: Seq<char>, id: Seq<char>, classes: Seq<Seq<char>>) -> Option<(PageRegion, nat)> {
    let tag = lower(tag0);
    let role = lower(role0);
    let all = lower(tag + " "@ + role + " "@ + id + " "@ + join_spaced(classes));
    if tag == "header"@ || role == "banner"@ {
        Some((PageRegion::Header, 95))
    } else if tag == "nav"@ || role == "navigation"@ {
        Some((PageRegion::Navigation, 95))
    } else if tag == "main"@ || role == "main"@ {
        Some((PageRegion::Main, 95))
    } else if tag == "footer"@ || role == "contentinfo"@ {
        Some((PageRegion::Footer, 95))
    } else if role == "dialog"@ {
        Some((PageRegion::Dialog, 95))
    } else if contains(all, "modal"@) {
        Some((PageRegion::Modal, 80))
    } else if contains(all, "sidebar"@) || contains(all, "aside"@) {
        Some((PageRegion::Sidebar, 75))
    } else if tag == "aside"@ || role == "complementary"@ {
        Some((PageRegion::Complementary, 85))
    } else {
        None
    }
}

pub open spec fn summary_region(e: ElementSummary) -> Option<(PageRegion, nat)> {
    region_spec(e.tag@, opt_or_empty(e.role), opt_or_empty(e.id), e.classes@.map(|i: int, c: String| c@))
}

fn join_classes(classes: &Vec<String>) -> (r: String)
    ensures
        r@ == join_spaced(classes@.map(|i: int, c: String| c@)),
{
    let ghost cs = classes@.map(|i: int, c: String| c@);
    let mut r = String::new();
    for i in 0..classes.len()
        invariant
            cs == classes@.map(|i: int, c: String| c@),
            r@ == join_spaced(cs.take(i as int)),
    {
        if i > 0 {
            r.append(" ");
        }
        r.append(classes[i].as_str());
        assert(cs.take(i + 1).drop_last() =~= cs.take(i as int));
        assert(r@ =~= join_spaced(cs.take(i + 1)));
    }
    assert(cs.take(classes.len() as int) =~= cs);
    r
}

fn text_or_empty(o: &Option<String>) -> (r: String)
    ensures
        r@ == opt_or_empty(*o),
{
    match o {
        Some(s) => s.clone(),
        None => String::new(),
    }
}

/// The region an element marks, with the confidence in percent.
pub fn region_for(e: &ElementSummary) -> (r: Option<(PageRegion, u32)>)
    ensures
        (r matches Some((k, c)) ==> summary_region(*e) == Some((k, c as nat))),
        r is None ==> summary_region(*e) is None,
{
    let tag = to_ascii_lowercase(e.tag.as_str());
    let role_raw = text_or_empty(&e.role);
    let role = to_ascii_lowercase(role_raw.as_str());
    let id = text_or_empty(&e.id);
    let class = join_classes(&e.classes);
    let mut all_raw = tag.clone();
    all_raw.append(" ");
    all_raw.append(role.as_str());
    all_raw.append(" ");
    all_raw.append(id.as_str());
    all_raw.append(" ");
    all_raw.append(class.as_str());
    let all = to_ascii_lowercase(all_raw.as_str());
    if tag == String::from_str("header") || role == String::from_str("banner") {
        Some((PageRegion::Header, 95))
    } else if tag == String::from_str("nav") || role == String::from_str("navigation") {
        Some((PageRegion::Navigation, 95))
    } else if tag == String::from_str("main") || role == String::from_str("main") {
        Some((PageRegion::Main, 95))
    } else if tag == String::from_str("footer") || role == String::from_str("contentinfo") {
        Some((PageRegion::Footer, 95))
    } else if role == String::from_str("dialog") {
        Some((PageRegion::Dialog, 95))
    } else if str_contains(all.as_str(), "modal") {
        Some((PageRegion::Modal, 80))
    } else if str_contains(all.as_str(), "sidebar") || str_contains(all.as_str(), "aside") {
        Some((PageRegion::Sidebar, 75))
    } else if tag == String::from_str("aside") || role == String::from_str("complementary") {
        Some((PageRegion::Complementary, 85))
    } else {
        None
    }
}


/// A detected region: its kind, the element's selector, and the confidence
/// in percent.
#[derive(Debug)]
pub struct RegionHit {
    pub kind: PageRegion,
    pub selector: String,
    pub confidence: u32,
}

pub open spec fn regions_spec(es: Seq<ElementSummary>) -> Seq<(PageRegion, Seq<char>, nat)>
    decreases es.len(),
{
    if es.len() == 0 {
        Seq::empty()
    } else {
        let rest = regions_spec(es.drop_last());
        match summary_region(es.last()) {
            Some((k, c)) => rest.push((k, es.last().selector@, c)),
            None => rest,
        }
    }
}

pub open spec fn hits_view(hs: Seq<RegionHit>) -> Seq<(PageRegion, Seq<char>, nat)> {
    hs.map(|i: int, h: RegionHit| (h.kind, h.selector@, h.confidence as nat))
}

/// The regions that the elements mark, in order.
pub fn detect_regions(elements: &Vec<ElementSummary>) -> (r: Vec<RegionHit>)
    ensures
        hits_view(r@) == regions_spec(elements@),
{
    let mut out: Vec<RegionHit> = Vec::new();
    assert(hits_view(out@) =~= regions_spec(elements@.take(0)));
    for i in 0..elements.len()
        invariant
            hits_view(out@) == regions_spec(elements@.take(i as int)),
    {
        assert(elements@.take(i + 1).drop_last() =~= elements@.take(i as int));
        assert(elements@.take(i + 1).last() == elements@[i as int]);
        match region_for(&elements[i]) {
            Some((kind, confidence)) => {
                let ghost before = out@;
                out.push(RegionHit { kind, selector: elements[i].selector.clone(), confidence });
                assert(hits_view(out@) =~= hits_view(before).push((kind, elements@[i as int].selector@, confidence as nat)));
            },
            None => {},
        }
    }
    assert(elements@.take(elements@.len() as int) =~= elements@);
    out
}

// ---------------------------------------------------------------------------
// Element fingerprints.

/// Properties fingerprint of an element for similarity matching.
#[derive(Debug, Clone, Default)]
pub struct ElementProps {
    pub tag: String,
    pub id: Option<String>,
    pub classes: Vec<String>,
    pub role: Option<String>,
    pub text: Option<String>,
    pub href: Option<String>,
    pub label: Option<String>,
    pub parent_tag: Option<String>,
    pub position_hint: Option<usize>,
}

/// Trimmed and ASCII lower-cased.
pub open spec fn clean_spec(s: Seq<char>) -> Seq<char> {
    lower(trim(s))
}

pub fn clean(s: &str) -> (r: String)
    ensures
        r@ == clean_spec(s@),
{
    let t = str_trim(s);
    to_ascii_lowercase(t.as_str())
}

pub open spec fn opt_eq_spec(a: Option<String>, b: Option<String>) -> bool {
    match (a, b) {
        (Some(x), Some(y)) => clean_spec(x@) == clean_spec(y@),
        _ => false,
    }
}

pub fn opt_eq(a: &Option<String>, b: &Option<String>) -> (r: bool)
    ensures
        r == opt_eq_spec(*a, *b),
{
    match (a, b) {
        (Some(x), Some(y)) => clean(x.as_str()) == clean(y.as_str()),
        _ => false,
    }
}

/// Two texts match when both are given, the first is not blank, and after
/// cleaning one contains the other.
pub open spec fn text_eq_spec(a: Option<String>, b: Option<String>) -> bool {
    match (a, b) {
        (Some(x), Some(y)) => {
            let p = clean_spec(x@);
            let q = clean_spec(y@);
            p.len() > 0 && (p == q || contains(p, q) || contains(q, p))
        },
        _ => false,
    }
}

pub fn text_eq(a: &Option<String>, b: &Option<String>) -> (r: bool)
    ensures
        r == text_eq_spec(*a, *b),
{
    match (a, b) {
        (Some(x), Some(y)) => {
            let p = clean(x.as_str());
            let q = clean(y.as_str());
            p.unicode_len() > 0 && (p == q || str_contains(p.as_str(), q.as_str()) || str_contains(q.as_str(), p.as_str()))
        },
        _ => false,
    }
}

pub open spec fn class_in(x: Seq<char>, b: Seq<Seq<char>>) -> bool {
    exists|j: int| 0 <= j < b.len() && clean_spec(x) == clean_spec(#[trigger] b[j])
}

/// The classes of `a` that `b` shares (after cleaning), and the larger of
/// the two class counts; both zero where either list is empty.
pub open spec fn class_overlap_spec(a: Seq<Seq<char>>, b: Seq<Seq<char>>) -> (nat, nat) {
    if a.len() == 0 || b.len() == 0 {
        (0, 0)
    } else {
        (a.filter(|x: Seq<char>| class_in(x, b)).len(), if a.len() >= b.len() { a.len() } else { b.len() })
    }
}

/// What two fingerprints share; the weighted score is computed from these.
#[derive(Debug, Clone, Copy, PartialEq, Eq)]
pub struct SimilarityParts {
    pub tag: bool,
    pub id: bool,
    pub class_hits: usize,
    pub class_total: usize,
    pub text: bool,
    pub role: bool,
    pub position: bool,
}

pub open spec fn classes_of(p: ElementProps) -> Seq<Seq<char>> {
    p.classes@.map(|i: int, c: String| c@)
}

pub open spec fn similarity_spec(a: ElementProps, b: ElementProps) -> SimilarityParts {
    let (hits, total) = class_overlap_spec(classes_of(a), classes_of(b));
    SimilarityParts {
        tag: clean_spec(a.tag@) == clean_spec(b.tag@),
        id: opt_eq_spec(a.id, b.id),
        class_hits: hits as usize,
        class_total: total as usize,
        text: text_eq_spec(a.text, b.text) || text_eq_spec(a.label, b.label),
        role: opt_eq_spec(a.role, b.role),
        position: a.position_hint is Some && a.position_hint == b.position_hint,
    }
}

fn class_overlap(a: &Vec<String>, b: &Vec<String>) -> (r: (usize, usize))
    ensures
        r.0 as nat == class_overlap_spec(a@.map(|i: int, c: String| c@), b@.map(|i: int, c: String| c@)).0,
        r.1 as nat == class_overlap_spec(a@.map(|i: int, c: String| c@), b@.map(|i: int, c: String| c@)).1,
{
    let ghost av = a@.map(|i: int, c: String| c@);
    let ghost bv = b@.map(|i: int, c: String| c@);
    if a.len() == 0 || b.len() == 0 {
        return (0, 0);
    }
    let ghost pred = |x: Seq<char>| class_in(x, bv);
    let mut hits: usize = 0;
    assert(av.take(0).filter(pred) =~= Seq::<Seq<char>>::empty());
    for i in 0..a.len()
        invariant
            av == a@.map(|i: int, c: String| c@),
            bv == b@.map(|i: int, c: String| c@),
            pred == (|x: Seq<char>| class_in(x, bv)),
            hits as nat == av.take(i as int).filter(pred).len(),
            hits <= i,
    {
        proof {
            av.take(i as int).lemma_filter_push(av[i as int], pred);
            assert(av.take(i + 1) =~= av.take(i as int).push(av[i as int]));
        }
        let x = clean(a[i].as_str());
        let mut found = false;
        for j in 0..b.len()
            invariant
                bv == b@.map(|i: int, c: String| c@),
                x@ == clean_spec(av[i as int]),
                av == a@.map(|i: int, c: String| c@),
                i < a@.len(),
                found == exists|k: int| 0 <= k < j && clean_spec(av[i as int]) == clean_spec(#[trigger] bv[k]),
        {
            let y = clean(b[j].as_str());
            assert(bv[j as int] == b@[j as int]@);
            if x == y {
                found = true;
                assert(clean_spec(av[i as int]) == clean_spec(bv[j as int]));
            }
            assert(found == exists|k: int| 0 <= k < j + 1 && clean_spec(av[i as int]) == clean_spec(#[trigger] bv[k])) by {
                if exists|k: int| 0 <= k < j + 1 && clean_spec(av[i as int]) == clean_spec(#[trigger] bv[k]) {
                    let k = choose|k: int| 0 <= k < j + 1 && clean_spec(av[i as int]) == clean_spec(#[trigger] bv[k]);
                    if k < j {
                        assert(exists|k2: int| 0 <= k2 < j && clean_spec(av[i as int]) == clean_spec(#[trigger] bv[k2]));
                    }
                }
            }
        }
        if found {
            hits = hits + 1;
        }
    }
    assert(av.take(a.len() as int) =~= av);
    let total = if a.len() >= b.len() { a.len() } else { b.len() };
    (hits, total)
}

/// Compares two fingerprints.
pub fn similarity_parts(a: &ElementProps, b: &ElementProps) -> (r: SimilarityParts)
    ensures
        r == similarity_spec(*a, *b),
{
    let (class_hits, class_total) = class_overlap(&a.classes, &b.classes);
    let position = match (a.position_hint, b.position_hint) {
        (Some(x), Some(y)) => x == y,
        _ => false,
    };
    SimilarityParts {
        tag: clean(a.tag.as_str()) == clean(b.tag.as_str()),
        id: opt_eq(&a.id, &b.id),
        class_hits,
        class_total,
        text: text_eq(&a.text, &b.text) || text_eq(&a.label, &b.label),
        role: opt_eq(&a.role, &b.role),
        position,
    }
}

} // verus!
