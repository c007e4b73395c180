use vstd::prelude::*;
use vstd::string::{StrSliceExecFns, StringSliceAdditionalSpecFns};
use crate::text::{
    dec_digits, find_from, hex_color, hex_color_bytes, matches_at, push_bytes, replace_all,
    replace_all_bytes, rfind_at, find_sub, rfind_sub, u32_dec,
};

verus! {

broadcast use vstd::seq_lib::group_to_multiset_ensures;

/// The opening bytes of the document's root element, up to the width value.
pub open spec fn header_pre() -> Seq<u8> {
    "<?xml version=\"1.0\" encoding=\"UTF-8\" standalone=\"no\"?>\n<svg version=\"1.1\" xmlns=\"http://www.w3.org/2000/svg\" width=\"".spec_bytes()
}

/// The document header: XML declaration and root element carrying the pixel
/// width, height, and a matching view box.
pub open spec fn header_bytes(w: u32, h: u32) -> Seq<u8> {
    header_pre() + dec_digits(w as int) + "\" height=\"".spec_bytes() + dec_digits(h as int)
        + "\" viewBox=\"0 0 ".spec_bytes() + dec_digits(w as int) + " ".spec_bytes() + dec_digits(
        h as int,
    ) + "\">\n".spec_bytes()
}

/// The document footer: the closing root tag.
pub open spec fn footer_bytes() -> Seq<u8> {
    "</svg>".spec_bytes()
}

/// Builds the document header for a `w` by `h` image.
pub fn document_header(w: u32, h: u32) -> (r: Vec<u8>)
    ensures
        r@ == header_bytes(w, h),
{
    let mut r = "<?xml version=\"1.0\" encoding=\"UTF-8\" standalone=\"no\"?>\n<svg version=\"1.1\" xmlns=\"http://www.w3.org/2000/svg\" width=\"".as_bytes_vec();
    let wd = u32_dec(w);
    let hd = u32_dec(h);
    push_bytes(&mut r, &wd);
    push_bytes(&mut r, &"\" height=\"".as_bytes_vec());
    push_bytes(&mut r, &hd);
    push_bytes(&mut r, &"\" viewBox=\"0 0 ".as_bytes_vec());
    push_bytes(&mut r, &wd);
    push_bytes(&mut r, &" ".as_bytes_vec());
    push_bytes(&mut r, &hd);
    push_bytes(&mut r, &"\">\n".as_bytes_vec());
    r
}

/// Builds the document footer.
pub fn document_footer() -> (r: Vec<u8>)
    ensures
        r@ == footer_bytes(),
{
    "</svg>".as_bytes_vec()
}

/// The concatenation of the layer bodies, each followed by a newline.
pub open spec fn layers_concat(bodies: Seq<Seq<u8>>) -> Seq<u8>
    decreases bodies.len(),
{
    if bodies.len() == 0 {
        Seq::empty()
    } else {
        layers_concat(bodies.drop_last()) + bodies.last() + seq!['\n' as u8]
    }
}

/// The views of a list of byte buffers.
pub open spec fn views_of(bodies: Seq<Vec<u8>>) -> Seq<Seq<u8>> {
    bodies.map_values(|b: Vec<u8>| b@)
}

/// Assembles the final document: header, the layer bodies in the given order,
/// each followed by a newline, then the footer.
pub fn compose_document(w: u32, h: u32, bodies: &Vec<Vec<u8>>) -> (r: Vec<u8>)
    ensures
        r@ == header_bytes(w, h) + layers_concat(views_of(bodies@)) + footer_bytes(),
{
    let mut r = document_header(w, h);
    let mut j: usize = 0;
    proof {
        assert(views_of(bodies@).take(0) =~= Seq::<Seq<u8>>::empty());
        assert(r@ + layers_concat(views_of(bodies@).take(0)) =~= r@);
    }
    while j < bodies.len()
        invariant
            j <= bodies@.len(),
            r@ == header_bytes(w, h) + layers_concat(views_of(bodies@).take(j as int)),
        decreases bodies@.len() - j,
    {
        push_bytes(&mut r, &bodies[j]);
        r.push('\n' as u8);
        proof {
            let vs = views_of(bodies@);
            assert(vs.take(j + 1).drop_last() =~= vs.take(j as int));
            assert(vs.take(j + 1).last() == bodies@[j as int]@);
            assert(r@ =~= header_bytes(w, h) + layers_concat(vs.take(j + 1)));
        }
        j = j + 1;
    }
    proof {
        assert(views_of(bodies@).take(bodies@.len() as int) =~= views_of(bodies@));
    }
    let f = document_footer();
    push_bytes(&mut r, &f);
    r
}

/// The opening root-element marker.
pub open spec fn svg_open() -> Seq<u8> {
    seq!['<' as u8, 's' as u8, 'v' as u8, 'g' as u8]
}

/// The closing root-element tag.
pub open spec fn svg_close() -> Seq<u8> {
    seq!['<' as u8, '/' as u8, 's' as u8, 'v' as u8, 'g' as u8, '>' as u8]
}

/// The end of an opening tag.
pub open spec fn tag_end() -> Seq<u8> {
    seq!['>' as u8]
}

fn svg_open_vec() -> (r: Vec<u8>)
    ensures
        r@ == svg_open(),
{
    let mut v: Vec<u8> = Vec::new();
    v.push('<' as u8);
    v.push('s' as u8);
    v.push('v' as u8);
    v.push('g' as u8);
    proof {
        assert(v@ =~= svg_open());
    }
    v
}

fn svg_close_vec() -> (r: Vec<u8>)
    ensures
        r@ == svg_close(),
{
    let mut v: Vec<u8> = Vec::new();
    v.push('<' as u8);
    v.push('/' as u8);
    v.push('s' as u8);
    v.push('v' as u8);
    v.push('g' as u8);
    v.push('>' as u8);
    proof {
        assert(v@ =~= svg_close());
    }
    v
}

fn tag_end_vec() -> (r: Vec<u8>)
    ensures
        r@ == tag_end(),
{
    let mut v: Vec<u8> = Vec::new();
    v.push('>' as u8);
    proof {
        assert(v@ =~= tag_end());
    }
    v
}

/// A found occurrence is a real occurrence, and the leftmost one at or after
/// the start position.
pub proof fn lemma_find_from_some(s: Seq<u8>, pat: Seq<u8>, i: int, k: int)
    requires
        pat.len() >= 1,
        find_from(s, pat, i) == Some(k),
    ensures
        i <= k,
        matches_at(s, pat, k),
        forall|j: int| i <= j < k ==> !matches_at(s, pat, j),
    decreases s.len() - i,
{
    if i + pat.len() > s.len() {
    } else if matches_at(s, pat, i) {
    } else {
        lemma_find_from_some(s, pat, i + 1, k);
    }
}

/// A found occurrence is a real occurrence, and the rightmost one at or
/// before the start position.
pub proof fn lemma_rfind_at_some(s: Seq<u8>, pat: Seq<u8>, i: int, k: int)
    requires
        rfind_at(s, pat, i) == Some(k),
    ensures
        k <= i,
        matches_at(s, pat, k),
        forall|j: int| k < j <= i ==> !matches_at(s, pat, j),
    decreases i + 1,
{
    if i < 0 {
    } else if matches_at(s, pat, i) {
    } else {
        lemma_rfind_at_some(s, pat, i - 1, k);
    }
}

/// The body of a traced fragment: the bytes between the end of the first
/// opening root-element tag and the final closing root tag. `None` when a
/// marker is missing or the markers cross — malformed output, treated by
/// callers exactly as a trace failure.
pub open spec fn extract_body(c: Seq<u8>) -> Option<Seq<u8>> {
    match find_from(c, svg_open(), 0) {
        Option::None => Option::None,
        Option::Some(i0) => match find_from(c, tag_end(), i0) {
            Option::None => Option::None,
            Option::Some(i1) => match rfind_at(c, svg_close(), c.len() - svg_close().len()) {
                Option::None => Option::None,
                Option::Some(i2) => if i1 + 1 <= i2 {
                    Option::Some(c.subrange(i1 + 1, i2))
                } else {
                    Option::None
                },
            },
        },
    }
}

/// Locates the first opening root-element tag and the final closing root tag
/// and hands back the bytes between them, or `None` for malformed input.
pub fn extract_svg_body(content: &Vec<u8>) -> (r: Option<Vec<u8>>)
    ensures
        r is Some <==> extract_body(content@) is Some,
        r matches Some(v) ==> extract_body(content@) == Some(v@),
{
    let n = content.len();
    let open_pat = svg_open_vec();
    let gt_pat = tag_end_vec();
    let close_pat = svg_close_vec();
    let i0 = match find_sub(content, &open_pat, 0) {
        Some(i) => i,
        None => {
            return None;
        },
    };
    let i1 = match find_sub(content, &gt_pat, i0) {
        Some(i) => i,
        None => {
            return None;
        },
    };
    let i2 = match rfind_sub(content, &close_pat) {
        Some(i) => i,
        None => {
            return None;
        },
    };
    proof {
        lemma_find_from_some(content@, tag_end(), i0 as int, i1 as int);
        lemma_rfind_at_some(
            content@,
            svg_close(),
            content@.len() - svg_close().len(),
            i2 as int,
        );
    }
    if i1 + 1 <= i2 {
        let mut v: Vec<u8> = Vec::new();
        let mut j: usize = i1 + 1;
        while j < i2
            invariant
                i1 + 1 <= j <= i2,
                i2 < content@.len(),
                v@ == content@.subrange(i1 + 1, j as int),
            decreases i2 - j,
        {
            v.push(content[j]);
            proof {
                assert(content@.subrange(i1 + 1, j + 1) =~= content@.subrange(
                    i1 + 1,
                    j as int,
                ).push(content@[j as int]));
            }
            j = j + 1;
        }
        Some(v)
    } else {
        None
    }
}

/// The default fill attribute a tracer writes with a named color.
pub open spec fn fill_black_pat() -> Seq<u8> {
    seq![
        'f' as u8,
        'i' as u8,
        'l' as u8,
        'l' as u8,
        '=' as u8,
        '"' as u8,
        'b' as u8,
        'l' as u8,
        'a' as u8,
        'c' as u8,
        'k' as u8,
        '"' as u8,
    ]
}

/// The default fill attribute a tracer writes in hexadecimal form.
pub open spec fn fill_hex_zero_pat() -> Seq<u8> {
    seq![
        'f' as u8,
        'i' as u8,
        'l' as u8,
        'l' as u8,
        '=' as u8,
        '"' as u8,
        '#' as u8,
        '0' as u8,
        '0' as u8,
        '0' as u8,
        '0' as u8,
        '0' as u8,
        '0' as u8,
        '"' as u8,
    ]
}

/// The fill attribute carrying the layer's own color.
pub open spec fn fill_attr(r: u8, g: u8, b: u8) -> Seq<u8> {
    seq!['f' as u8, 'i' as u8, 'l' as u8, 'l' as u8, '=' as u8, '"' as u8] + hex_color(r, g, b)
        + seq!['"' as u8]
}

fn fill_prefix_vec() -> (r: Vec<u8>)
    ensures
        r@ == seq!['f' as u8, 'i' as u8, 'l' as u8, 'l' as u8, '=' as u8, '"' as u8],
{
    let mut v: Vec<u8> = Vec::new();
    v.push('f' as u8);
    v.push('i' as u8);
    v.push('l' as u8);
    v.push('l' as u8);
    v.push('=' as u8);
    v.push('"' as u8);
    proof {
        assert(v@ =~= seq!['f' as u8, 'i' as u8, 'l' as u8, 'l' as u8, '=' as u8, '"' as u8]);
    }
    v
}

fn fill_black_vec() -> (r: Vec<u8>)
    ensures
        r@ == fill_black_pat(),
{
    let mut v = fill_prefix_vec();
    v.push('b' as u8);
    v.push('l' as u8);
    v.push('a' as u8);
    v.push('c' as u8);
    v.push('k' as u8);
    v.push('"' as u8);
    proof {
        assert(v@ =~= fill_black_pat());
    }
    v
}

fn fill_hex_zero_vec() -> (r: Vec<u8>)
    ensures
        r@ == fill_hex_zero_pat(),
{
    let mut v = fill_prefix_vec();
    v.push('#' as u8);
    v.push('0' as u8);
    v.push('0' as u8);
    v.push('0' as u8);
    v.push('0' as u8);
    v.push('0' as u8);
    v.push('0' as u8);
    v.push('"' as u8);
    proof {
        assert(v@ =~= fill_hex_zero_pat());
    }
    v
}

fn fill_attr_vec(r: u8, g: u8, b: u8) -> (v: Vec<u8>)
    ensures
        v@ == fill_attr(r, g, b),
{
    let mut v = fill_prefix_vec();
    let hex = hex_color_bytes(r, g, b);
    push_bytes(&mut v, &hex);
    v.push('"' as u8);
    proof {
        assert(v@ =~= fill_attr(r, g, b));
    }
    v
}

/// The body with both default fill encodings replaced by the layer's color;
/// any other fill declaration passes through untouched.
pub open spec fn recolored(body: Seq<u8>, r: u8, g: u8, b: u8) -> Seq<u8> {
    replace_all(
        replace_all(body, fill_black_pat(), fill_attr(r, g, b)),
        fill_hex_zero_pat(),
        fill_attr(r, g, b),
    )
}

/// Rewrites both literal default fill encodings to the layer's color.
pub fn recolor_body(body: &Vec<u8>, r: u8, g: u8, b: u8) -> (out: Vec<u8>)
    ensures
        out@ == recolored(body@, r, g, b),
{
    let pat1 = fill_black_vec();
    let pat2 = fill_hex_zero_vec();
    let rep = fill_attr_vec(r, g, b);
    let pass1 = replace_all_bytes(body, &pat1, &rep);
    replace_all_bytes(&pass1, &pat2, &rep)
}

/// Extracts the traced fragment's body and recolors its default fill to the
/// layer's color; `None` for malformed tracer output, which callers skip
/// exactly as they skip a trace failure.
pub fn process_traced(content: &Vec<u8>, red: u8, green: u8, blue: u8) -> (r: Option<Vec<u8>>)
    ensures
        r is Some <==> extract_body(content@) is Some,
        r matches Some(v) ==> (extract_body(content@) matches Some(body) && v@ == recolored(
            body,
            red,
            green,
            blue,
        )),
{
    match extract_svg_body(content) {
        Some(body) => Some(recolor_body(&body, red, green, blue)),
        None => None,
    }
}

/// One recolored tone layer: its representative intensity and its body.
pub struct ToneLayer {
    pub tone: u8,
    pub body: Vec<u8>,
}

/// The value a tone layer contributes to the document: its intensity and its
/// body bytes.
pub open spec fn layer_model(l: ToneLayer) -> (u8, Seq<u8>) {
    (l.tone, l.body@)
}

/// The models of a layer list.
pub open spec fn layer_models(s: Seq<ToneLayer>) -> Seq<(u8, Seq<u8>)> {
    s.map_values(|l: ToneLayer| layer_model(l))
}

/// The tones of a layer list.
pub open spec fn layer_tones(s: Seq<ToneLayer>) -> Seq<u8> {
    s.map_values(|l: ToneLayer| l.tone)
}

/// Sorts tone layers by descending representative intensity. The result is a
/// permutation of the input: it holds the same layers, as a multiset, and the
/// same tones.
pub fn sort_layers_desc(layers: Vec<ToneLayer>) -> (r: Vec<ToneLayer>)
    ensures
        r@.len() == layers@.len(),
        forall|i: int, j: int| 0 <= i < j < r@.len() ==> r@[i].tone >= r@[j].tone,
        layer_models(r@).to_multiset() == layer_models(layers@).to_multiset(),
        layer_tones(r@).to_multiset() == layer_tones(layers@).to_multiset(),
{
    let mut rem = layers;
    let mut out: Vec<ToneLayer> = Vec::new();
    proof {
        assert(layer_models(out@) =~= Seq::<(u8, Seq<u8>)>::empty());
        assert(layer_tones(out@) =~= Seq::<u8>::empty());
        assert(layer_models(out@).to_multiset().add(layer_models(rem@).to_multiset())
            =~= layer_models(layers@).to_multiset());
        assert(layer_tones(out@).to_multiset().add(layer_tones(rem@).to_multiset())
            =~= layer_tones(layers@).to_multiset());
    }
    while rem.len() > 0
        invariant
            out@.len() + rem@.len() == layers@.len(),
            layer_models(out@).to_multiset().add(layer_models(rem@).to_multiset())
                == layer_models(layers@).to_multiset(),
            layer_tones(out@).to_multiset().add(layer_tones(rem@).to_multiset())
                == layer_tones(layers@).to_multiset(),
            forall|i: int, j: int| 0 <= i < j < out@.len() ==> out@[i].tone >= out@[j].tone,
            forall|i: int, j: int|
                0 <= i < out@.len() && 0 <= j < rem@.len() ==> out@[i].tone >= rem@[j].tone,
        decreases rem@.len(),
    {
        let mut m: usize = 0;
        let mut t: u8 = rem[0].tone;
        let mut j: usize = 1;
        while j < rem.len()
            invariant
                rem@.len() >= 1,
                m < j <= rem@.len(),
                t == rem@[m as int].tone,
                forall|jj: int| 0 <= jj < j ==> rem@[jj].tone <= t,
            decreases rem@.len() - j,
        {
            if rem[j].tone > t {
                m = j;
                t = rem[j].tone;
            }
            j = j + 1;
        }
        let ghost old_rem = rem@;
        let ghost old_out = out@;
        let item = rem.remove(m);
        out.push(item);
        proof {
            assert(layer_models(old_rem.remove(m as int)) =~= layer_models(old_rem).remove(
                m as int,
            ));
            assert(layer_tones(old_rem.remove(m as int)) =~= layer_tones(old_rem).remove(m as int));
            assert(layer_models(out@) =~= layer_models(old_out).push(layer_model(item)));
            assert(layer_tones(out@) =~= layer_tones(old_out).push(item.tone));
            assert(layer_models(old_rem)[m as int] == layer_model(item));
            assert(layer_tones(old_rem)[m as int] == item.tone);
            assert(layer_models(out@).to_multiset().add(layer_models(rem@).to_multiset())
                =~= layer_models(old_out).to_multiset().add(layer_models(old_rem).to_multiset()));
            assert(layer_tones(out@).to_multiset().add(layer_tones(rem@).to_multiset())
                =~= layer_tones(old_out).to_multiset().add(layer_tones(old_rem).to_multiset()));
        }
    }
    proof {
        assert(layer_models(rem@) =~= Seq::<(u8, Seq<u8>)>::empty());
        assert(layer_tones(rem@) =~= Seq::<u8>::empty());
        assert(layer_models(out@).to_multiset() =~= layer_models(layers@).to_multiset());
        assert(layer_tones(out@).to_multiset() =~= layer_tones(layers@).to_multiset());
    }
    out
}

/// A permutation of a duplicate-free tone list is itself duplicate-free:
/// sorting cannot make two layers share an intensity.
pub proof fn lemma_permutation_keeps_distinct(a: Seq<u8>, b: Seq<u8>)
    requires
        a.to_multiset() == b.to_multiset(),
        a.no_duplicates(),
    ensures
        b.no_duplicates(),
{
    a.lemma_multiset_has_no_duplicates();
    b.lemma_multiset_has_no_duplicates_conv();
}

/// Tone-mode layer order in the final document is strictly by descending
/// representative intensity: a descending sort of layers whose tones are
/// pairwise distinct leaves the tones strictly decreasing, the lightest tone
/// drawn first and the darkest last.
pub proof fn lemma_tone_document_order(input: Seq<ToneLayer>, output: Seq<ToneLayer>)
    requires
        layer_tones(input).no_duplicates(),
        layer_tones(output).to_multiset() == layer_tones(input).to_multiset(),
        forall|i: int, j: int| 0 <= i < j < output.len() ==> output[i].tone >= output[j].tone,
    ensures
        forall|i: int, j: int| 0 <= i < j < output.len() ==> output[i].tone > output[j].tone,
{
    lemma_permutation_keeps_distinct(layer_tones(input), layer_tones(output));
    assert forall|i: int, j: int| 0 <= i < j < output.len() implies output[i].tone
        > output[j].tone by {
        assert(layer_tones(output)[i] == output[i].tone);
        assert(layer_tones(output)[j] == output[j].tone);
    }
}

/// The bodies of the sorted layers, in layer order.
pub fn layer_bodies(layers: &Vec<ToneLayer>) -> (r: Vec<Vec<u8>>)
    ensures
        r@.len() == layers@.len(),
        forall|k: int| 0 <= k < r@.len() ==> (#[trigger] r@[k])@ == layers@[k].body@,
{
    let mut r: Vec<Vec<u8>> = Vec::new();
    let mut j: usize = 0;
    while j < layers.len()
        invariant
            j <= layers@.len(),
            r@.len() == j,
            forall|k: int| 0 <= k < j ==> (#[trigger] r@[k])@ == layers@[k].body@,
        decreases layers@.len() - j,
    {
        let mut b: Vec<u8> = Vec::new();
        push_bytes(&mut b, &layers[j].body);
        proof {
            assert(b@ =~= layers@[j as int].body@);
        }
        r.push(b);
        j = j + 1;
    }
    r
}

/// Assembles the line-art document: the traced body between header and
/// footer, with no recoloring. Malformed tracer output — markers missing or
/// crossed — yields no document at all: the caller treats it exactly as a
/// trace failure, which is fatal for line-art.
pub fn assemble_lineart_document(w: u32, h: u32, content: &Vec<u8>) -> (r: Option<Vec<u8>>)
    ensures
        r is Some <==> extract_body(content@) is Some,
        r matches Some(doc) ==> (extract_body(content@) matches Some(body) && doc@ == header_bytes(
            w,
            h,
        ) + body + footer_bytes()),
{
    match extract_svg_body(content) {
        Some(body) => {
            let mut r = document_header(w, h);
            push_bytes(&mut r, &body);
            let f = document_footer();
            push_bytes(&mut r, &f);
            Some(r)
        },
        None => None,
    }
}

} // verus!
