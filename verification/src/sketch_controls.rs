//! The registry of named slider controls a sketch declares, and the
//! visibility of the control panel.
//!
//! Controls are generic over the slider value type `V`; a sketch uses a
//! numeric type. A slider is found by its key; when two sliders share a key,
//! the one declared first answers.
use vstd::prelude::*;

verus! {

/// One slider: its key and label, its current value, the value it was
/// declared with and its range.
#[derive(Clone)]
struct Slider<V> {
    key: String,
    label: String,
    value: V,
    initial: V,
    min: V,
    max: V,
}

impl<V: Copy> Slider<V> {
    /// The same slider holding `value`.
    fn holding(&self, value: V) -> (s: Self)
        ensures
            s.key@ == self.key@,
            s.label@ == self.label@,
            s.value == value,
            s.initial == self.initial,
            s.min == self.min,
            s.max == self.max,
    {
        Slider {
            key: self.key.clone(),
            label: self.label.clone(),
            value,
            initial: self.initial,
            min: self.min,
            max: self.max,
        }
    }
}

/// The controls of one sketch: a window title and an ordered list of sliders,
/// each with its current value.
#[derive(Clone)]
pub struct SketchControls<V: Copy> {
    title: String,
    sliders: Vec<Slider<V>>,
}

impl<V: Copy> SketchControls<V> {
    /// The window title of the control panel.
    pub closed spec fn title_view(self) -> Seq<char> {
        self.title@
    }

    /// Number of sliders.
    pub closed spec fn len(self) -> nat {
        self.sliders@.len()
    }

    /// Key of slider `i`.
    pub closed spec fn key_at(self, i: int) -> Seq<char> {
        self.sliders@[i].key@
    }

    /// Label of slider `i`.
    pub closed spec fn label_at(self, i: int) -> Seq<char> {
        self.sliders@[i].label@
    }

    /// Current value of slider `i`.
    pub closed spec fn value_at(self, i: int) -> V {
        self.sliders@[i].value
    }

    /// Value slider `i` was declared with, to which a reset returns it.
    pub closed spec fn initial_at(self, i: int) -> V {
        self.sliders@[i].initial
    }

    /// Lower end of the range of slider `i`.
    pub closed spec fn min_at(self, i: int) -> V {
        self.sliders@[i].min
    }

    /// Upper end of the range of slider `i`.
    pub closed spec fn max_at(self, i: int) -> V {
        self.sliders@[i].max
    }

    /// Whether some slider has `key`.
    pub open spec fn has_key(self, key: Seq<char>) -> bool {
        exists|i: int| 0 <= i < self.len() && #[trigger] self.key_at(i) == key
    }

    /// Whether `i` is the first slider with `key`.
    pub open spec fn is_first_with_key(self, key: Seq<char>, i: int) -> bool {
        &&& 0 <= i < self.len()
        &&& self.key_at(i) == key
        &&& forall|j: int| 0 <= j < i ==> #[trigger] self.key_at(j) != key
    }

    /// The first slider with `key` (meaningful when `has_key(key)`).
    pub open spec fn first_with_key(self, key: Seq<char>) -> int {
        choose|i: int| self.is_first_with_key(key, i)
    }

    /// The value `value(key)` answers.
    pub open spec fn lookup(self, key: Seq<char>) -> V {
        self.value_at(self.first_with_key(key))
    }

    /// The sliders of `self` and `other` are described alike (keys, labels,
    /// initial values and ranges) and the titles agree.
    pub open spec fn same_layout(self, other: Self) -> bool {
        &&& self.title_view() == other.title_view()
        &&& self.len() == other.len()
        &&& forall|i: int|
            0 <= i < self.len() ==> {
                &&& #[trigger] self.key_at(i) == other.key_at(i)
                &&& self.label_at(i) == other.label_at(i)
                &&& self.initial_at(i) == other.initial_at(i)
                &&& self.min_at(i) == other.min_at(i)
                &&& self.max_at(i) == other.max_at(i)
            }
    }

    /// `self` is `old` with every slider back at its initial value.
    pub open spec fn is_reset_of(self, old: Self) -> bool {
        &&& self.same_layout(old)
        &&& forall|i: int| 0 <= i < self.len() ==> #[trigger] self.value_at(i) == old.initial_at(i)
    }

    /// `self` is `old` with slider `index` now holding `value`.
    pub open spec fn is_update_of(self, old: Self, index: int, value: V) -> bool {
        &&& self.same_layout(old)
        &&& self.value_at(index) == value
        &&& forall|i: int| 0 <= i < old.len() && i != index ==> #[trigger] self.value_at(i) == old.value_at(i)
    }

    /// `self` is `old` with one more slider appended at the end.
    pub open spec fn is_extension_of(
        self,
        old: Self,
        key: Seq<char>,
        label: Seq<char>,
        value: V,
        min: V,
        max: V,
    ) -> bool {
        &&& self.title_view() == old.title_view()
        &&& self.len() == old.len() + 1
        &&& forall|i: int|
            0 <= i < old.len() ==> {
                &&& #[trigger] self.key_at(i) == old.key_at(i)
                &&& self.label_at(i) == old.label_at(i)
                &&& self.value_at(i) == old.value_at(i)
                &&& self.initial_at(i) == old.initial_at(i)
                &&& self.min_at(i) == old.min_at(i)
                &&& self.max_at(i) == old.max_at(i)
            }
        &&& self.key_at(old.len() as int) == key
        &&& self.label_at(old.len() as int) == label
        &&& self.value_at(old.len() as int) == value
        &&& self.initial_at(old.len() as int) == value
        &&& self.min_at(old.len() as int) == min
        &&& self.max_at(old.len() as int) == max
    }

    /// Controls titled `title`, with no slider yet.
    pub fn new(title: &str) -> (controls: Self)
        ensures
            controls.title_view() == title@,
            controls.len() == 0,
    {
        SketchControls { title: String::from_str(title), sliders: Vec::new() }
    }

    /// Appends a slider with `key`, `label`, starting at `value` (which is
    /// also the value a reset returns to) and ranging over `min..=max`.
    pub fn add_slider(&mut self, key: &str, label: &str, value: V, min: V, max: V)
        ensures
            final(self).is_extension_of(*old(self), key@, label@, value, min, max),
    {
        let slider = Slider {
            key: String::from_str(key),
            label: String::from_str(label),
            value,
            initial: value,
            min,
            max,
        };
        self.sliders.push(slider);
    }

    /// Builder form of `add_slider`.
    pub fn with_slider(self, key: &str, label: &str, value: V, min: V, max: V) -> (controls: Self)
        ensures
            controls.is_extension_of(self, key@, label@, value, min, max),
    {
        let mut controls = self;
        controls.add_slider(key, label, value, min, max);
        controls
    }

    /// The window title of the control panel.
    pub fn title(&self) -> (t: &str)
        ensures
            t@ == self.title_view(),
    {
        self.title.as_str()
    }

    /// Number of sliders.
    pub fn slider_count(&self) -> (n: usize)
        ensures
            n == self.len(),
    {
        self.sliders.len()
    }

    /// Whether the sketch declared no slider.
    pub fn is_empty(&self) -> (b: bool)
        ensures
            b == (self.len() == 0),
    {
        self.sliders.len() == 0
    }

    /// The first slider whose key is `key`, or `None` when no slider has it.
    pub fn position(&self, key: &str) -> (found: Option<usize>)
        ensures
            found matches Some(i) ==> self.is_first_with_key(key@, i as int),
            found is None <==> !self.has_key(key@),
    {
        let wanted = String::from_str(key);
        let n = self.sliders.len();
        let mut i: usize = 0;
        while i < n
            invariant
                n == self.len(),
                i <= n,
                wanted@ == key@,
                forall|j: int| 0 <= j < i ==> #[trigger] self.key_at(j) != key@,
            decreases n - i,
        {
            if self.sliders[i].key == wanted {
                assert(self.key_at(i as int) == key@);
                return Some(i);
            }
            i = i + 1;
        }
        None
    }

    /// The current value of the slider with `key` (the first one, when several
    /// share it).
    pub fn value(&self, key: &str) -> (v: V)
        requires
            self.has_key(key@),
        ensures
            v == self.lookup(key@),
    {
        match self.position(key) {
            Some(i) => {
                proof {
                    lemma_first_with_key_unique(*self, key@, i as int);
                }
                self.sliders[i].value
            },
            None => {
                proof {
                    assert(false);
                }
                self.sliders[0].value
            },
        }
    }

    /// Label of slider `index`.
    pub fn slider_label(&self, index: usize) -> (l: &str)
        requires
            index < self.len(),
        ensures
            l@ == self.label_at(index as int),
    {
        self.sliders[index].label.as_str()
    }

    /// Key of slider `index`.
    pub fn slider_key(&self, index: usize) -> (k: &str)
        requires
            index < self.len(),
        ensures
            k@ == self.key_at(index as int),
    {
        self.sliders[index].key.as_str()
    }

    /// Current value of slider `index`.
    pub fn slider_value(&self, index: usize) -> (v: V)
        requires
            index < self.len(),
        ensures
            v == self.value_at(index as int),
    {
        self.sliders[index].value
    }

    /// The range `(min, max)` of slider `index`.
    pub fn slider_range(&self, index: usize) -> (r: (V, V))
        requires
            index < self.len(),
        ensures
            r == (self.min_at(index as int), self.max_at(index as int)),
    {
        (self.sliders[index].min, self.sliders[index].max)
    }

    /// Sets the current value of slider `index`, leaving every other slider as it was.
    pub fn set_slider_value(&mut self, index: usize, value: V)
        requires
            index < old(self).len(),
        ensures
            final(self).is_update_of(*old(self), index as int, value),
    {
        let updated = self.sliders[index].holding(value);
        self.sliders.set(index, updated);
    }

    /// Puts every slider back at the value it was declared with.
    pub fn reset(&mut self)
        ensures
            final(self).is_reset_of(*old(self)),
    {
        let n = self.sliders.len();
        let mut i: usize = 0;
        while i < n
            invariant
                n == self.sliders@.len(),
                i <= n,
                self.same_layout(*old(self)),
                forall|j: int| 0 <= j < i ==> #[trigger] self.value_at(j) == old(self).initial_at(j),
            decreases n - i,
        {
            let initial = self.sliders[i].initial;
            let updated = self.sliders[i].holding(initial);
            let ghost before = *self;
            self.sliders.set(i, updated);
            assert forall|j: int| 0 <= j < n && j != i implies #[trigger] self.sliders@[j]
                == before.sliders@[j] by {}
            assert(self.same_layout(before));
            assert forall|j: int| 0 <= j < i + 1 implies #[trigger] self.value_at(j) == old(
                self,
            ).initial_at(j) by {
                if j < i {
                    assert(self.sliders@[j] == before.sliders@[j]);
                    assert(before.value_at(j) == old(self).initial_at(j));
                } else {
                    assert(before.key_at(j) == old(self).key_at(j));
                }
            }
            i = i + 1;
        }
    }
}

/// There is at most one first slider with a given key.
pub proof fn lemma_first_with_key_unique<V: Copy>(controls: SketchControls<V>, key: Seq<char>, i: int)
    requires
        controls.is_first_with_key(key, i),
    ensures
        controls.first_with_key(key) == i,
{
    let j = controls.first_with_key(key);
    assert(controls.is_first_with_key(key, j));
    if j < i {
        assert(controls.key_at(j) != key);
    } else if i < j {
        assert(controls.key_at(i) != key);
    }
}

/// A slider that has a key has a first slider with that key.
pub proof fn lemma_has_key_has_first<V: Copy>(controls: SketchControls<V>, key: Seq<char>)
    requires
        controls.has_key(key),
    ensures
        controls.is_first_with_key(key, controls.first_with_key(key)),
{
    let k = choose|k: int| 0 <= k < controls.len() && #[trigger] controls.key_at(k) == key;
    lemma_first_exists_below(controls, key, k);
}

proof fn lemma_first_exists_below<V: Copy>(controls: SketchControls<V>, key: Seq<char>, k: int)
    requires
        0 <= k < controls.len(),
        controls.key_at(k) == key,
    ensures
        exists|i: int| controls.is_first_with_key(key, i),
    decreases k,
{
    if exists|j: int| 0 <= j < k && #[trigger] controls.key_at(j) == key {
        let j = choose|j: int| 0 <= j < k && #[trigger] controls.key_at(j) == key;
        lemma_first_exists_below(controls, key, j);
    } else {
        assert(controls.is_first_with_key(key, k));
    }
}

/// Declaring a slider under a key no earlier slider has makes `value` of that
/// key answer the declared value; every other key answers as before, and a key
/// that was already declared keeps answering its first slider.
pub proof fn lemma_lookup_after_add<V: Copy>(
    old: SketchControls<V>,
    new: SketchControls<V>,
    key: Seq<char>,
    label: Seq<char>,
    value: V,
    min: V,
    max: V,
    other: Seq<char>,
)
    requires
        new.is_extension_of(old, key, label, value, min, max),
    ensures
        new.has_key(key),
        !old.has_key(key) ==> new.lookup(key) == value,
        old.has_key(other) ==> new.has_key(other) && new.lookup(other) == old.lookup(other),
        other != key ==> (new.has_key(other) <==> old.has_key(other)),
{
    let n = old.len() as int;
    assert(new.key_at(n) == key);
    if !old.has_key(key) {
        assert forall|j: int| 0 <= j < n implies #[trigger] new.key_at(j) != key by {
            assert(new.key_at(j) == old.key_at(j));
        }
        assert(new.is_first_with_key(key, n));
        lemma_first_with_key_unique(new, key, n);
    }
    if old.has_key(other) {
        lemma_has_key_has_first(old, other);
        let i = old.first_with_key(other);
        assert(new.key_at(i) == old.key_at(i));
        assert forall|j: int| 0 <= j < i implies #[trigger] new.key_at(j) != other by {
            assert(new.key_at(j) == old.key_at(j));
            assert(old.key_at(j) != other);
        }
        assert(new.is_first_with_key(other, i));
        lemma_first_with_key_unique(new, other, i);
    }
    if other != key && new.has_key(other) {
        let k = choose|k: int| 0 <= k < new.len() && #[trigger] new.key_at(k) == other;
        assert(k < n);
        assert(old.key_at(k) == new.key_at(k));
    }
}

/// After a reset, every key answers the value its first slider was declared with.
pub proof fn lemma_lookup_after_reset<V: Copy>(
    old: SketchControls<V>,
    new: SketchControls<V>,
    key: Seq<char>,
)
    requires
        new.is_reset_of(old),
        old.has_key(key),
    ensures
        new.has_key(key),
        new.lookup(key) == old.initial_at(old.first_with_key(key)),
{
    lemma_has_key_has_first(old, key);
    let i = old.first_with_key(key);
    assert(new.key_at(i) == old.key_at(i));
    assert forall|j: int| 0 <= j < i implies #[trigger] new.key_at(j) != key by {
        assert(new.key_at(j) == old.key_at(j));
        assert(old.key_at(j) != key);
    }
    assert(new.is_first_with_key(key, i));
    lemma_first_with_key_unique(new, key, i);
}

/// Resetting twice is the same as resetting once.
pub proof fn lemma_reset_idempotent<V: Copy>(
    a: SketchControls<V>,
    b: SketchControls<V>,
    c: SketchControls<V>,
)
    requires
        b.is_reset_of(a),
        c.is_reset_of(b),
    ensures
        c.same_layout(b),
        forall|i: int| 0 <= i < c.len() ==> #[trigger] c.value_at(i) == b.value_at(i),
{
    assert forall|i: int| 0 <= i < c.len() implies #[trigger] c.value_at(i) == b.value_at(i) by {
        assert(c.key_at(i) == b.key_at(i));
        assert(b.key_at(i) == a.key_at(i));
    }
}

/// Setting the first slider of a key makes `value` of that key read back what
/// was set; a key whose first slider is another one answers as before.
pub proof fn lemma_lookup_after_set<V: Copy>(
    old: SketchControls<V>,
    new: SketchControls<V>,
    index: int,
    value: V,
    key: Seq<char>,
)
    requires
        new.is_update_of(old, index, value),
        0 <= index < old.len(),
        old.has_key(key),
    ensures
        new.has_key(key),
        old.first_with_key(key) == index ==> new.lookup(key) == value,
        old.first_with_key(key) != index ==> new.lookup(key) == old.lookup(key),
{
    lemma_has_key_has_first(old, key);
    let i = old.first_with_key(key);
    assert(new.key_at(i) == old.key_at(i));
    assert forall|j: int| 0 <= j < i implies #[trigger] new.key_at(j) != key by {
        assert(new.key_at(j) == old.key_at(j));
        assert(old.key_at(j) != key);
    }
    assert(new.is_first_with_key(key, i));
    lemma_first_with_key_unique(new, key, i);
}

/// Whether the control panel is shown.
pub struct ControlPanelState {
    visible: bool,
}

/// The visibility after one frame in which the toggle key was pressed or not.
pub open spec fn visibility_after(visible: bool, toggle_pressed: bool) -> bool {
    if toggle_pressed {
        !visible
    } else {
        visible
    }
}

impl ControlPanelState {
    /// Whether the panel is shown.
    pub closed spec fn shown(self) -> bool {
        self.visible
    }

    /// A hidden panel: panels start hidden.
    pub fn new() -> (state: Self)
        ensures
            !state.shown(),
    {
        ControlPanelState { visible: false }
    }

    /// Whether the panel is shown.
    pub fn is_visible(&self) -> (b: bool)
        ensures
            b == self.shown(),
    {
        self.visible
    }

    /// Flips the visibility when the toggle key was just pressed.
    pub fn on_toggle_key(&mut self, just_pressed: bool)
        ensures
            final(self).shown() == visibility_after(old(self).shown(), just_pressed),
    {
        if just_pressed {
            self.visible = !self.visible;
        }
    }
}

impl Default for ControlPanelState {
    /// A hidden panel.
    fn default() -> (state: Self)
        ensures
            !state.shown(),
    {
        ControlPanelState::new()
    }
}

/// Pressing the toggle key twice shows the panel exactly when it was shown
/// before; a frame without the key changes nothing.
pub proof fn lemma_toggle_twice_restores(visible: bool)
    ensures
        visibility_after(visibility_after(visible, true), true) == visible,
        visibility_after(visible, false) == visible,
{
}

} // verus!
