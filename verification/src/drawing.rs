use vstd::prelude::*;

verus! {

// ---------------------------------------------------------------------------
// Drawing leaf data. Per-element serialization of drawings is collaborator
// field-mapping outside the container core; the core carries the data.
// ---------------------------------------------------------------------------

/// A relative fill rectangle: each edge offset kept as its attribute text.
pub struct FillRectangle {
    pub left: Option<String>,
    pub top: Option<String>,
    pub right: Option<String>,
    pub bottom: Option<String>,
}

impl FillRectangle {
    pub fn new() -> (r: FillRectangle)
        ensures
            r.left is None,
            r.top is None,
            r.right is None,
            r.bottom is None,
    {
        FillRectangle { left: None, top: None, right: None, bottom: None }
    }
}

/// A stretch fill: an optional fill rectangle.
pub struct Stretch {
    pub fill_rectangle: Option<FillRectangle>,
}

impl Stretch {
    pub fn new() -> (r: Stretch)
        ensures
            r.fill_rectangle is None,
    {
        Stretch { fill_rectangle: None }
    }

    pub fn get_fill_rectangle(&self) -> (r: &Option<FillRectangle>)
        ensures
            r == self.fill_rectangle,
    {
        &self.fill_rectangle
    }

    pub fn set_fill_rectangle(&mut self, value: FillRectangle)
        ensures
            final(self).fill_rectangle == Some(value),
    {
        self.fill_rectangle = Some(value);
    }
}

// ---------------------------------------------------------------------------
// Legacy vector markup leaf data
// ---------------------------------------------------------------------------

/// A boolean attribute value that may also be blank.
pub struct TrueFalseBlankValue {
    pub value: Option<bool>,
}

impl TrueFalseBlankValue {
    pub fn new() -> (r: TrueFalseBlankValue)
        ensures
            r.value is None,
    {
        TrueFalseBlankValue { value: None }
    }

    pub fn get_value(&self) -> (r: &Option<bool>)
        ensures
            r == self.value,
    {
        &self.value
    }

    pub fn set_value(&mut self, value: bool)
        ensures
            final(self).value == Some(value),
    {
        self.value = Some(value);
    }

    pub fn has_value(&self) -> (r: bool)
        ensures
            r == (self.value is Some),
    {
        self.value.is_some()
    }
}

/// The visibility flag of a legacy vector-markup shape.
pub struct Visible {
    pub value: TrueFalseBlankValue,
}

impl Visible {
    pub fn new() -> (r: Visible)
        ensures
            r.value.value is None,
    {
        Visible { value: TrueFalseBlankValue::new() }
    }

    pub fn get_value(&self) -> (r: &Option<bool>)
        ensures
            r == self.value.value,
    {
        self.value.get_value()
    }

    pub fn set_value(&mut self, value: bool)
        ensures
            final(self).value.value == Some(value),
    {
        self.value.set_value(value);
    }
}

} // verus!
