//! The widget and button that exercise the generic script-binding layer:
//! their state and the operations their bindings expose. Converting script
//! values to these arguments is left to the bindings.
use vstd::prelude::*;
use crate::text::{chars_of, concat_str, split_at_char, split_chars, string_from_chars, trim_whitespace, trimmed};

verus! {

/// The counter after one increment, wrapping at the largest 32-bit value.
pub open spec fn wrapping_inc(n: u32) -> u32 {
    if n == u32::MAX {
        0
    } else {
        (n + 1) as u32
    }
}

fn wrapping_inc_exec(n: u32) -> (r: u32)
    ensures
        r == wrapping_inc(n),
{
    if n == u32::MAX {
        0
    } else {
        n + 1
    }
}

/// How many of the items are strings, counted with a wrapping 32-bit
/// counter.
pub open spec fn count_strings(items: Seq<bool>) -> u32
    decreases items.len(),
{
    if items.len() == 0 {
        0
    } else {
        let c = count_strings(items.drop_last());
        if items.last() {
            wrapping_inc(c)
        } else {
            c
        }
    }
}

/// A widget: a title, a visibility flag, a counter, and a stored callback.
pub struct TestWidget<C> {
    pub title: String,
    pub visible: bool,
    pub count: u32,
    pub on_change: Option<C>,
}

impl<C> TestWidget<C> {
    /// A widget titled "Untitled", visible, with a zero count and no
    /// callback.
    pub fn new() -> (w: Self)
        ensures
            w.title@ == "Untitled"@,
            w.visible,
            w.count == 0,
            w.on_change is None,
    {
        TestWidget { title: String::from_str("Untitled"), visible: true, count: 0, on_change: None }
    }

    /// The constructor from arguments: the title ("Untitled" where none is
    /// given) and the visibility (true where none is given); the count
    /// starts at zero.
    pub fn from_args(title: Option<String>, visible: Option<bool>) -> (w: Self)
        ensures
            w.title@ == match title {
                Some(t) => t@,
                None => "Untitled"@,
            },
            w.visible == match visible {
                Some(v) => v,
                None => true,
            },
            w.count == 0,
            w.on_change is None,
    {
        let title = match title {
            Some(t) => t,
            None => String::from_str("Untitled"),
        };
        let visible = match visible {
            Some(v) => v,
            None => true,
        };
        TestWidget { title, visible, count: 0, on_change: None }
    }

    /// The static factory: the same as the constructor from arguments.
    pub fn create_static(title: Option<String>, visible: Option<bool>) -> (w: Self)
        ensures
            w.title@ == match title {
                Some(t) => t@,
                None => "Untitled"@,
            },
            w.visible == match visible {
                Some(v) => v,
                None => true,
            },
            w.count == 0,
            w.on_change is None,
    {
        Self::from_args(title, visible)
    }

    pub fn title(&self) -> (t: String)
        ensures
            t@ == self.title@,
    {
        self.title.clone()
    }

    pub fn set_title(&mut self, title: String)
        ensures
            final(self).title@ == title@,
            final(self).visible == old(self).visible,
            final(self).count == old(self).count,
            final(self).on_change == old(self).on_change,
    {
        self.title = title;
    }

    pub fn visible(&self) -> (v: bool)
        ensures
            v == self.visible,
    {
        self.visible
    }

    pub fn count(&self) -> (c: u32)
        ensures
            c == self.count,
    {
        self.count
    }

    /// Increments the counter (wrapping) and returns its old value.
    pub fn increment(&mut self) -> (old_count: u32)
        ensures
            old_count == old(self).count,
            final(self).count == wrapping_inc(old(self).count),
            final(self).title == old(self).title,
            final(self).visible == old(self).visible,
            final(self).on_change == old(self).on_change,
    {
        let old_count = self.count;
        self.count = wrapping_inc_exec(old_count);
        old_count
    }

    pub fn set_count(&mut self, count: u32)
        ensures
            final(self).count == count,
            final(self).title == old(self).title,
            final(self).visible == old(self).visible,
            final(self).on_change == old(self).on_change,
    {
        self.count = count;
    }

    /// The label: the prefix (empty where none is given), a colon, and the
    /// title.
    pub fn format_label(&self, prefix: Option<&str>) -> (l: String)
        ensures
            l@ == match prefix {
                Some(p) => p@,
                None => Seq::<char>::empty(),
            } + ":"@ + self.title@,
    {
        let head = match prefix {
            Some(p) => concat_str(p, ":"),
            None => String::from_str(":"),
        };
        proof {
            reveal_strlit(":");
        }
        concat_str(head.as_str(), self.title.as_str())
    }

    /// Sets the counter to how many of the items are strings.
    pub fn process_items(&mut self, item_is_string: &[bool])
        ensures
            final(self).count == count_strings(item_is_string@),
            final(self).title == old(self).title,
            final(self).visible == old(self).visible,
            final(self).on_change == old(self).on_change,
    {
        let mut count: u32 = 0;
        let mut i: usize = 0;
        while i < item_is_string.len()
            invariant
                i <= item_is_string@.len(),
                count == count_strings(item_is_string@.take(i as int)),
            decreases item_is_string@.len() - i,
        {
            assert(item_is_string@.take(i + 1).drop_last() =~= item_is_string@.take(i as int));
            if item_is_string[i] {
                count = wrapping_inc_exec(count);
            }
            i = i + 1;
        }
        assert(item_is_string@.take(item_is_string@.len() as int) =~= item_is_string@);
        self.count = count;
    }

    /// Stores the callback to call on a change.
    pub fn store_callback(&mut self, callback: C)
        ensures
            final(self).on_change == Some(callback),
            final(self).title == old(self).title,
            final(self).visible == old(self).visible,
            final(self).count == old(self).count,
    {
        self.on_change = Some(callback);
    }

    /// The title, visibility and count, as `toObject` and `toArray` report
    /// them.
    pub fn fields(&self) -> (f: (String, bool, u32))
        ensures
            f.0@ == self.title@,
            f.1 == self.visible,
            f.2 == self.count,
    {
        (self.title.clone(), self.visible, self.count)
    }

    /// `toArray`: the title, the visibility and the count, in that order.
    pub fn to_array(&self) -> (a: Vec<WidgetValue>)
        ensures
            a@.len() == 3,
            a@[0] matches WidgetValue::Text(t) && t@ == self.title@,
            a@[1] == WidgetValue::Boolean(self.visible),
            a@[2] == WidgetValue::Number(self.count),
    {
        let (title, visible, count) = self.fields();
        let mut a: Vec<WidgetValue> = Vec::new();
        a.push(WidgetValue::Text(title));
        a.push(WidgetValue::Boolean(visible));
        a.push(WidgetValue::Number(count));
        a
    }
}

/// A value of the array `toArray` gives.
#[derive(Clone, Debug)]
pub enum WidgetValue {
    Text(String),
    Boolean(bool),
    Number(u32),
}

/// The tags of a comma-separated string: each piece, trimmed.
pub open spec fn tags_spec(tags: Seq<char>) -> Seq<Seq<char>> {
    split_at_char(tags, ',').map_values(|p: Seq<char>| trimmed(p))
}

/// `fromTags`: the comma-separated pieces of the string, each trimmed.
pub fn from_tags(tags: &str) -> (parts: Vec<String>)
    ensures
        parts@.len() == tags_spec(tags@).len(),
        forall|i: int| 0 <= i < parts@.len() ==> (#[trigger] parts@[i])@ == tags_spec(tags@)[i],
{
    let chars = chars_of(tags);
    let pieces = split_chars(&chars, ',');
    let mut parts: Vec<String> = Vec::new();
    let mut i: usize = 0;
    while i < pieces.len()
        invariant
            chars@ == tags@,
            pieces@.len() == split_at_char(tags@, ',').len(),
            forall|k: int| 0 <= k < pieces@.len() ==> (#[trigger] pieces@[k])@ == split_at_char(tags@, ',')[k],
            i <= pieces@.len(),
            parts@.len() == i,
            forall|k: int| 0 <= k < i ==> (#[trigger] parts@[k])@ == tags_spec(tags@)[k],
        decreases pieces@.len() - i,
    {
        let t = trim_whitespace(pieces[i].as_slice());
        parts.push(string_from_chars(t.as_slice()));
        i = i + 1;
    }
    parts
}

/// A button: a label and the widget it extends.
pub struct TestButton<C> {
    pub label: String,
    pub widget: TestWidget<C>,
}

impl<C> TestButton<C> {
    /// A button with the label and a new widget.
    pub fn new(label: &str) -> (b: Self)
        ensures
            b.label@ == label@,
            b.widget.title@ == "Untitled"@,
            b.widget.visible,
            b.widget.count == 0,
            b.widget.on_change is None,
    {
        TestButton { label: String::from_str(label), widget: TestWidget::new() }
    }

    pub fn label_value(&self) -> (l: &str)
        ensures
            l@ == self.label@,
    {
        self.label.as_str()
    }

    pub fn set_label(&mut self, label: &str)
        ensures
            final(self).label@ == label@,
            final(self).widget == old(self).widget,
    {
        self.label = String::from_str(label);
    }
}

} // verus!
