//! The registry of open widget windows, kept by window label.

use vstd::prelude::*;

verus! {

/// No label occurs twice in `s`.
pub open spec fn distinct_labels(s: Seq<Seq<char>>) -> bool {
    forall|i: int, j: int| 0 <= i < j < s.len() ==> s[i] != s[j]
}

/// The labels `s` after registering `label`: unchanged when it is already
/// there, else with `label` at the end.
pub open spec fn with_label(s: Seq<Seq<char>>, label: Seq<char>) -> Seq<Seq<char>> {
    if s.contains(label) {
        s
    } else {
        s.push(label)
    }
}

/// The labels `s` with every occurrence of `label` dropped, the others in order.
pub open spec fn without_label(s: Seq<Seq<char>>, label: Seq<char>) -> Seq<Seq<char>>
    decreases s.len(),
{
    if s.len() == 0 {
        s
    } else {
        let rest = without_label(s.drop_last(), label);
        if s.last() == label {
            rest
        } else {
            rest.push(s.last())
        }
    }
}

/// The labels of the widget windows that are open, in the order they were registered.
pub struct WidgetManager {
    widgets: Vec<String>,
}

impl View for WidgetManager {
    type V = Seq<Seq<char>>;

    closed spec fn view(&self) -> Seq<Seq<char>> {
        self.widgets@.map_values(|s: String| s@)
    }
}

impl WidgetManager {
    #[verifier::type_invariant]
    closed spec fn labels_are_distinct(self) -> bool {
        distinct_labels(self@)
    }

    /// An empty registry.
    pub fn new() -> (m: Self)
        ensures
            m@ == Seq::<Seq<char>>::empty(),
    {
        let m = WidgetManager { widgets: Vec::new() };
        assert(m@ =~= Seq::<Seq<char>>::empty());
        m
    }

    /// Whether `label` is registered.
    pub fn contains(&self, label: &String) -> (b: bool)
        ensures
            b == self@.contains(label@),
    {
        let mut i: usize = 0;
        while i < self.widgets.len()
            invariant
                i <= self.widgets.len(),
                forall|j: int| 0 <= j < i ==> self@[j] != label@,
            decreases self.widgets.len() - i,
        {
            if self.widgets[i] == *label {
                assert(self@[i as int] == label@);
                return true;
            }
            i = i + 1;
        }
        proof {
            if self@.contains(label@) {
                let k = choose|k: int| 0 <= k < self@.len() && self@[k] == label@;
                assert(self@[k] != label@);
            }
        }
        false
    }

    /// Registers the window `label`, once.
    pub fn add(&mut self, label: String)
        ensures
            final(self)@ == with_label(old(self)@, label@),
            distinct_labels(final(self)@),
    {
        proof {
            use_type_invariant(&*self);
        }
        if !self.contains(&label) {
            let ghost l = label@;
            let mut widgets: Vec<String> = Vec::new();
            std::mem::swap(&mut widgets, &mut self.widgets);
            widgets.push(label);
            proof {
                let s = old(self)@;
                assert(widgets@.map_values(|s: String| s@) =~= s.push(l));
                assert forall|i: int, j: int| 0 <= i < j < s.push(l).len() implies s.push(l)[i]
                    != s.push(l)[j] by {
                    if j == s.len() {
                        assert(s.contains(s[i]));
                    }
                }
            }
            self.widgets = widgets;
            assert(self@ =~= old(self)@.push(l));
        }
        proof {
            use_type_invariant(&*self);
        }
    }

    /// Forgets the window `label`.
    pub fn remove(&mut self, label: &str)
        ensures
            final(self)@ == without_label(old(self)@, label@),
            distinct_labels(final(self)@),
    {
        proof {
            use_type_invariant(&*self);
        }
        let target = label.to_string();
        let mut kept: Vec<String> = Vec::new();
        let mut i: usize = 0;
        while i < self.widgets.len()
            invariant
                i <= self.widgets.len(),
                target@ == label@,
                kept@.map_values(|s: String| s@) == without_label(self@.take(i as int), label@),
            decreases self.widgets.len() - i,
        {
            assert(self@.take(i + 1).drop_last() =~= self@.take(i as int));
            if self.widgets[i] != target {
                let ghost before = kept@;
                kept.push(self.widgets[i].clone());
                assert(kept@.map_values(|s: String| s@) =~= before.map_values(|s: String| s@).push(
                    self@[i as int],
                ));
            }
            i = i + 1;
        }
        assert(self@.take(self@.len() as int) =~= self@);
        proof {
            lemma_without_label_keeps_distinct(self@, label@);
        }
        self.widgets = kept;
    }

    /// The registered labels, in registration order.
    pub fn labels(&self) -> (v: Vec<String>)
        ensures
            v@.map_values(|s: String| s@) == self@,
            distinct_labels(self@),
    {
        proof {
            use_type_invariant(self);
        }
        self.widgets.clone()
    }
}

/// What `without_label` keeps is in `s`, and is not `label`.
pub proof fn lemma_without_label_members(s: Seq<Seq<char>>, label: Seq<char>)
    ensures
        forall|x: Seq<char>| #[trigger] without_label(s, label).contains(x) ==> s.contains(x) && x != label,
    decreases s.len(),
{
    if s.len() > 0 {
        lemma_without_label_members(s.drop_last(), label);
        assert forall|x: Seq<char>| #[trigger] without_label(s, label).contains(x) implies s.contains(x)
            && x != label by {
            let rest = without_label(s.drop_last(), label);
            if rest.contains(x) {
                let k = choose|k: int| 0 <= k < s.drop_last().len() && s.drop_last()[k] == x;
                assert(s[k] == x);
            } else {
                assert(x == s.last());
            }
        }
    }
}

/// Dropping a label keeps the others distinct.
pub proof fn lemma_without_label_keeps_distinct(s: Seq<Seq<char>>, label: Seq<char>)
    requires
        distinct_labels(s),
    ensures
        distinct_labels(without_label(s, label)),
    decreases s.len(),
{
    if s.len() > 0 {
        lemma_without_label_keeps_distinct(s.drop_last(), label);
        lemma_without_label_members(s.drop_last(), label);
        let rest = without_label(s.drop_last(), label);
        if s.last() != label {
            assert forall|i: int, j: int| 0 <= i < j < rest.push(s.last()).len() implies rest.push(
                s.last(),
            )[i] != rest.push(s.last())[j] by {
                if j == rest.len() {
                    assert(rest.contains(rest[i]));
                    let k = choose|k: int| 0 <= k < s.drop_last().len() && s.drop_last()[k] == rest[i];
                    assert(s[k] == rest[i]);
                }
            }
        }
    }
}

/// Removing a label that is absent changes nothing.
pub proof fn lemma_without_absent_label(s: Seq<Seq<char>>, label: Seq<char>)
    requires
        !s.contains(label),
    ensures
        without_label(s, label) == s,
    decreases s.len(),
{
    if s.len() > 0 {
        assert(!s.drop_last().contains(label)) by {
            if s.drop_last().contains(label) {
                let k = choose|k: int| 0 <= k < s.drop_last().len() && s.drop_last()[k] == label;
                assert(s[k] == label);
            }
        }
        lemma_without_absent_label(s.drop_last(), label);
        assert(s.drop_last().push(s.last()) =~= s);
    }
}

/// Closing a window that was registered just before, when it was not
/// registered already, gives back the labels as they were.
pub proof fn lemma_remove_undoes_add(s: Seq<Seq<char>>, label: Seq<char>)
    requires
        !s.contains(label),
    ensures
        without_label(with_label(s, label), label) == s,
{
    assert(s.push(label).drop_last() =~= s);
    lemma_without_absent_label(s, label);
}

/// Registering a label twice is the same as registering it once.
pub proof fn lemma_add_idempotent(s: Seq<Seq<char>>, label: Seq<char>)
    ensures
        with_label(with_label(s, label), label) == with_label(s, label),
        with_label(s, label).contains(label),
{
    if !s.contains(label) {
        assert(s.push(label)[s.len() as int] == label);
    }
}

/// After removing a label it is no longer registered, and every other
/// registered label stays.
pub proof fn lemma_remove_forgets_only_label(s: Seq<Seq<char>>, label: Seq<char>)
    ensures
        !without_label(s, label).contains(label),
        forall|x: Seq<char>| s.contains(x) && x != label ==> #[trigger] without_label(s, label).contains(x),
    decreases s.len(),
{
    lemma_without_label_members(s, label);
    if s.len() > 0 {
        lemma_remove_forgets_only_label(s.drop_last(), label);
        let rest = without_label(s.drop_last(), label);
        assert forall|x: Seq<char>| s.contains(x) && x != label implies #[trigger] without_label(
            s,
            label,
        ).contains(x) by {
            let k = choose|k: int| 0 <= k < s.len() && s[k] == x;
            if k < s.len() - 1 {
                assert(s.drop_last()[k] == x);
                assert(rest.contains(x));
                if s.last() != label {
                    let m = choose|m: int| 0 <= m < rest.len() && rest[m] == x;
                    assert(rest.push(s.last())[m] == x);
                }
            } else {
                assert(rest.push(s.last())[rest.len() as int] == x);
            }
        }
    }
}

} // verus!
