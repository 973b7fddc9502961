//! The order of identifiers: by their labels, each compared character by
//! character, then by version. It looks at what an
//! identifier is, not at how it was written, so two texts of one identifier
//! sort alike.
use vstd::prelude::*;
use vstd::string::*;
use vstd::utf8::is_ascii_chars;
use crate::dtmi::{is_label_char, valid_dtmi, valid_label, Dtmi, DtmiView};
use crate::text::{ascii_len, char_at, views};

verus! {

/// Whether text `a` stands before text `b` in the dictionary.
pub open spec fn text_less(a: Seq<char>, b: Seq<char>) -> bool
    decreases a.len(),
{
    if b.len() == 0 {
        false
    } else if a.len() == 0 {
        true
    } else if a[0] != b[0] {
        a[0] < b[0]
    } else {
        text_less(a.skip(1), b.skip(1))
    }
}

/// Whether the labels `a` stand before the labels `b`: at the first place
/// where they differ, the label of `a` stands before that of `b`, or `a`
/// has ended.
pub open spec fn labels_less(a: Seq<Seq<char>>, b: Seq<Seq<char>>) -> bool
    decreases a.len(),
{
    if b.len() == 0 {
        false
    } else if a.len() == 0 {
        true
    } else if a[0] != b[0] {
        text_less(a[0], b[0])
    } else {
        labels_less(a.skip(1), b.skip(1))
    }
}

/// Whether identifier `a` stands before identifier `b`.
pub open spec fn dtmi_less(a: DtmiView, b: DtmiView) -> bool {
    if a.labels != b.labels {
        labels_less(a.labels, b.labels)
    } else {
        a.version < b.version
    }
}

/// Of two different texts exactly one stands before the other, and no text
/// stands before itself.
pub proof fn lemma_text_order(a: Seq<char>, b: Seq<char>)
    ensures
        a == b ==> !text_less(a, b),
        a != b ==> (text_less(a, b) <==> !text_less(b, a)),
    decreases a.len(),
{
    if a.len() > 0 && b.len() > 0 && a[0] == b[0] {
        lemma_text_order(a.skip(1), b.skip(1));
        if a.skip(1) == b.skip(1) {
            assert(a =~= seq![a[0]] + a.skip(1));
            assert(b =~= seq![b[0]] + b.skip(1));
        }
    } else if a.len() == 0 && b.len() == 0 {
        assert(a =~= b);
    }
}

/// Of two different lists of labels exactly one stands before the other,
/// and no list stands before itself.
pub proof fn lemma_labels_order(a: Seq<Seq<char>>, b: Seq<Seq<char>>)
    ensures
        a == b ==> !labels_less(a, b),
        a != b ==> (labels_less(a, b) <==> !labels_less(b, a)),
    decreases a.len(),
{
    if a.len() > 0 && b.len() > 0 {
        if a[0] == b[0] {
            lemma_labels_order(a.skip(1), b.skip(1));
            if a.skip(1) == b.skip(1) {
                assert(a =~= seq![a[0]] + a.skip(1));
                assert(b =~= seq![b[0]] + b.skip(1));
            }
        } else {
            lemma_text_order(a[0], b[0]);
        }
    } else if a.len() == 0 && b.len() == 0 {
        assert(a =~= b);
    }
}

/// The order of identifiers is total and strict: of two different
/// identifiers exactly one stands before the other, and none stands before
/// itself.
pub proof fn law_order_is_total(a: DtmiView, b: DtmiView)
    ensures
        a == b ==> !dtmi_less(a, b) && !dtmi_less(b, a),
        a != b ==> (dtmi_less(a, b) <==> !dtmi_less(b, a)),
{
    lemma_labels_order(a.labels, b.labels);
}

/// What stands before a text that stands before a third stands before the
/// third.
pub proof fn lemma_text_order_transitive(a: Seq<char>, b: Seq<char>, c: Seq<char>)
    requires
        text_less(a, b),
        text_less(b, c),
    ensures
        text_less(a, c),
    decreases a.len(),
{
    if a.len() > 0 && a[0] == b[0] && b[0] == c[0] {
        lemma_text_order_transitive(a.skip(1), b.skip(1), c.skip(1));
    }
}

/// The order of lists of labels is transitive.
pub proof fn lemma_labels_order_transitive(
    a: Seq<Seq<char>>,
    b: Seq<Seq<char>>,
    c: Seq<Seq<char>>,
)
    requires
        labels_less(a, b),
        labels_less(b, c),
    ensures
        labels_less(a, c),
    decreases a.len(),
{
    if a.len() > 0 {
        if a[0] == b[0] && b[0] == c[0] {
            lemma_labels_order_transitive(a.skip(1), b.skip(1), c.skip(1));
        } else if a[0] != b[0] && b[0] != c[0] {
            lemma_text_order_transitive(a[0], b[0], c[0]);
            lemma_text_order(a[0], c[0]);
        }
    }
}

/// The order of identifiers is transitive.
pub proof fn law_order_is_transitive(a: DtmiView, b: DtmiView, c: DtmiView)
    requires
        dtmi_less(a, b),
        dtmi_less(b, c),
    ensures
        dtmi_less(a, c),
{
    if a.labels != b.labels && b.labels != c.labels {
        lemma_labels_order_transitive(a.labels, b.labels, c.labels);
        lemma_labels_order(a.labels, c.labels);
    }
}

/// Whether text `a` stands before text `b` in the dictionary.
fn text_precedes(a: &str, b: &str) -> (r: bool)
    requires
        a.is_ascii(),
        b.is_ascii(),
    ensures
        r == text_less(a@, b@),
{
    let la: usize = ascii_len(a);
    let lb: usize = ascii_len(b);
    let mut i: usize = 0;
    assert(a@.skip(0) =~= a@ && b@.skip(0) =~= b@);
    loop
        invariant
            a.is_ascii(),
            b.is_ascii(),
            la == a@.len(),
            lb == b@.len(),
            i <= la,
            i <= lb,
            text_less(a@, b@) == text_less(a@.skip(i as int), b@.skip(i as int)),
        decreases la - i,
    {
        if i == lb {
            return false;
        }
        if i == la {
            return true;
        }
        let ca: char = char_at(a, i);
        let cb: char = char_at(b, i);
        assert(a@.skip(i as int)[0] == ca && b@.skip(i as int)[0] == cb);
        if ca != cb {
            return ca < cb;
        }
        assert(a@.skip(i as int).skip(1) =~= a@.skip(i + 1));
        assert(b@.skip(i as int).skip(1) =~= b@.skip(i + 1));
        i += 1;
    }
}

impl Dtmi {
    /// Whether this identifier stands before `other`.
    pub fn precedes(&self, other: &Dtmi) -> (r: bool)
        ensures
            r == dtmi_less(self@, other@),
    {
        proof {
            use_type_invariant(self);
            use_type_invariant(other);
        }
        let a = self.labels();
        let b = other.labels();
        let ghost va = views(a@);
        let ghost vb = views(b@);
        let mut i: usize = 0;
        assert(va.skip(0) =~= va && vb.skip(0) =~= vb);
        loop
            invariant
                va == views(a@),
                vb == views(b@),
                va == self@.labels,
                vb == other@.labels,
                valid_dtmi(self@),
                valid_dtmi(other@),
                i <= a@.len(),
                i <= b@.len(),
                forall|j: int| 0 <= j < i ==> va[j] == vb[j],
                labels_less(va, vb) == labels_less(va.skip(i as int), vb.skip(i as int)),
            decreases a@.len() - i,
        {
            if i == a.len() || i == b.len() {
                if a.len() == b.len() {
                    assert(va =~= vb);
                    return self.version() < other.version();
                }
                assert(va.len() != vb.len());
                return i == a.len();
            }
            assert(va.skip(i as int)[0] == va[i as int] && vb.skip(i as int)[0] == vb[i as int]);
            assert(va[i as int] == a@[i as int]@ && vb[i as int] == b@[i as int]@);
            if a[i] != b[i] {
                proof {
                    lemma_label_is_ascii(va[i as int]);
                    lemma_label_is_ascii(vb[i as int]);
                }
                return text_precedes(a[i].as_str(), b[i].as_str());
            }
            assert(va.skip(i as int).skip(1) =~= va.skip(i + 1));
            assert(vb.skip(i as int).skip(1) =~= vb.skip(i + 1));
            i += 1;
        }
    }
}

/// A label holds ASCII characters only.
proof fn lemma_label_is_ascii(label: Seq<char>)
    requires
        valid_label(label),
    ensures
        is_ascii_chars(label),
{
    assert forall|i: int| 0 <= i < label.len() implies '\0' <= #[trigger] label[i] <= '\u{7f}' by {
        assert(is_label_char(label[i]));
    }
}

} // verus!
