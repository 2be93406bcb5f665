use vstd::prelude::*;

verus! {

/// Determines how a field of an animation effect is combined with the base
/// value of a visual state.
#[derive(Debug, Clone, Copy, PartialEq, Eq, Structural)]
pub enum CombinedMode {
    /// Use the field's default combination rule.
    Default,
    /// Add the effect value to the base value.
    Add,
    /// Multiply the base value by the effect value.
    Mul,
    /// Replace the base value with the effect value entirely.
    Override,
}

/// The arithmetic operation that combines a base value with an effect value.
#[derive(Debug, Clone, Copy, PartialEq, Eq, Structural)]
pub enum CombineOp {
    /// `base + delta`
    Add,
    /// `base * delta`
    Mul,
    /// `delta`
    Replace,
}

/// The fields of a visual state that an animation effect changes.
#[derive(Debug, Clone, Copy, PartialEq, Eq, Structural)]
pub enum VisualField {
    Opacity,
    Rotation,
    Scale,
    Position,
}

/// The default rule of each field: opacity and scale multiply, rotation and
/// position add.
pub open spec fn default_op_of(field: VisualField) -> CombineOp {
    match field {
        VisualField::Opacity | VisualField::Scale => CombineOp::Mul,
        VisualField::Rotation | VisualField::Position => CombineOp::Add,
    }
}

/// The operation that `mode` stands for on `field`: `Default` is the
/// field's default rule.
pub open spec fn field_op_of(field: VisualField, mode: CombinedMode) -> CombineOp {
    match mode {
        CombinedMode::Default => default_op_of(field),
        CombinedMode::Add => CombineOp::Add,
        CombinedMode::Mul => CombineOp::Mul,
        CombinedMode::Override => CombineOp::Replace,
    }
}

impl VisualField {
    /// The field's default rule.
    pub fn default_op(&self) -> (res: CombineOp)
        ensures
            res == default_op_of(*self),
    {
        match self {
            VisualField::Opacity | VisualField::Scale => CombineOp::Mul,
            VisualField::Rotation | VisualField::Position => CombineOp::Add,
        }
    }
}

impl CombinedMode {
    /// The operation this mode stands for on `field`.
    pub fn op_for(&self, field: VisualField) -> (res: CombineOp)
        ensures
            res == field_op_of(field, *self),
    {
        match self {
            CombinedMode::Default => field.default_op(),
            CombinedMode::Add => CombineOp::Add,
            CombinedMode::Mul => CombineOp::Mul,
            CombinedMode::Override => CombineOp::Replace,
        }
    }
}

/// Per-field combination modes for applying an animation effect to a visual
/// state.
#[derive(Debug, Clone, Copy)]
pub struct CustomCombinedMode {
    pub(crate) opacity: CombinedMode,
    pub(crate) rotation: CombinedMode,
    pub(crate) scale: CombinedMode,
    pub(crate) position: CombinedMode,
}

/// Per-field modes as `(opacity, rotation, scale, position)`.
pub type FieldModes = (CombinedMode, CombinedMode, CombinedMode, CombinedMode);

impl View for CustomCombinedMode {
    type V = FieldModes;

    closed spec fn view(&self) -> FieldModes {
        (self.opacity, self.rotation, self.scale, self.position)
    }
}

/// The default per-field modes: opacity and scale multiply, rotation and
/// position add.
pub open spec fn default_combined_mode() -> FieldModes {
    (CombinedMode::Mul, CombinedMode::Add, CombinedMode::Mul, CombinedMode::Add)
}

impl CustomCombinedMode {
    /// Explicit combination rules for each visual field.
    pub fn new(
        opacity: CombinedMode,
        rotation: CombinedMode,
        scale: CombinedMode,
        position: CombinedMode,
    ) -> (res: Self)
        ensures
            res@ == (opacity, rotation, scale, position),
    {
        Self { opacity, rotation, scale, position }
    }

    /// A custom opacity rule, defaults for the other fields.
    pub fn with_opacity(opacity: CombinedMode) -> (res: Self)
        ensures
            res@ == (opacity, default_combined_mode().1, default_combined_mode().2, default_combined_mode().3),
    {
        Self { opacity, ..Self::default() }
    }

    /// A custom rotation rule, defaults for the other fields.
    pub fn with_rotation(rotation: CombinedMode) -> (res: Self)
        ensures
            res@ == (default_combined_mode().0, rotation, default_combined_mode().2, default_combined_mode().3),
    {
        Self { rotation, ..Self::default() }
    }

    /// A custom scale rule, defaults for the other fields.
    pub fn with_scale(scale: CombinedMode) -> (res: Self)
        ensures
            res@ == (default_combined_mode().0, default_combined_mode().1, scale, default_combined_mode().3),
    {
        Self { scale, ..Self::default() }
    }

    /// A custom position rule, defaults for the other fields.
    pub fn with_position(position: CombinedMode) -> (res: Self)
        ensures
            res@ == (default_combined_mode().0, default_combined_mode().1, default_combined_mode().2, position),
    {
        Self { position, ..Self::default() }
    }

    /// The opacity rule.
    pub fn opacity(&self) -> (res: CombinedMode)
        ensures
            res == self@.0,
    {
        self.opacity
    }

    /// The rotation rule.
    pub fn rotation(&self) -> (res: CombinedMode)
        ensures
            res == self@.1,
    {
        self.rotation
    }

    /// The scale rule.
    pub fn scale(&self) -> (res: CombinedMode)
        ensures
            res == self@.2,
    {
        self.scale
    }

    /// The position rule.
    pub fn position(&self) -> (res: CombinedMode)
        ensures
            res == self@.3,
    {
        self.position
    }
}

impl Default for CustomCombinedMode {
    fn default() -> (res: Self)
        ensures
            res@ == default_combined_mode(),
    {
        Self {
            opacity: CombinedMode::Mul,
            rotation: CombinedMode::Add,
            scale: CombinedMode::Mul,
            position: CombinedMode::Add,
        }
    }
}

/// The mode of `field` in per-field modes `m`.
pub open spec fn mode_of(m: FieldModes, field: VisualField) -> CombinedMode {
    match field {
        VisualField::Opacity => m.0,
        VisualField::Rotation => m.1,
        VisualField::Scale => m.2,
        VisualField::Position => m.3,
    }
}

/// Applying an effect with the default per-field modes, or with `Default`
/// on every field, combines every field by its default rule: the same as
/// applying it with no custom modes at all.
pub proof fn lemma_default_modes_match_default_rules(field: VisualField)
    ensures
        field_op_of(field, mode_of(default_combined_mode(), field)) == default_op_of(field),
        field_op_of(field, CombinedMode::Default) == default_op_of(field),
{
}

/// An explicit mode means one operation whatever the field: `Add` adds,
/// `Mul` multiplies and `Override` replaces, on opacity, rotation, scale and
/// position alike; so two fields under the same explicit mode combine the
/// same way.
pub proof fn lemma_explicit_modes_ignore_field(f: VisualField, g: VisualField)
    ensures
        field_op_of(f, CombinedMode::Add) == CombineOp::Add,
        field_op_of(f, CombinedMode::Mul) == CombineOp::Mul,
        field_op_of(f, CombinedMode::Override) == CombineOp::Replace,
        forall|m: CombinedMode|
            m != CombinedMode::Default ==> #[trigger] field_op_of(f, m) == field_op_of(g, m),
{
}

/// Under `Default` each field keeps its own rule: opacity and scale are
/// multiplied, rotation and position are added, and no field is replaced.
pub proof fn lemma_default_mode_per_field(f: VisualField)
    ensures
        field_op_of(VisualField::Opacity, CombinedMode::Default) == CombineOp::Mul,
        field_op_of(VisualField::Scale, CombinedMode::Default) == CombineOp::Mul,
        field_op_of(VisualField::Rotation, CombinedMode::Default) == CombineOp::Add,
        field_op_of(VisualField::Position, CombinedMode::Default) == CombineOp::Add,
        field_op_of(f, CombinedMode::Default) != CombineOp::Replace,
{
}

} // verus!
