use rustgames::visual::{CombineOp, CombinedMode, CustomCombinedMode, VisualField};

#[test]
fn default_modes() {
    let d = CustomCombinedMode::default();
    assert_eq!(d.opacity(), CombinedMode::Mul);
    assert_eq!(d.rotation(), CombinedMode::Add);
    assert_eq!(d.scale(), CombinedMode::Mul);
    assert_eq!(d.position(), CombinedMode::Add);
}

#[test]
fn single_field_builders_keep_other_defaults() {
    let m = CustomCombinedMode::with_opacity(CombinedMode::Override);
    assert_eq!(m.opacity(), CombinedMode::Override);
    assert_eq!(m.rotation(), CombinedMode::Add);
    let m = CustomCombinedMode::with_rotation(CombinedMode::Mul);
    assert_eq!(m.rotation(), CombinedMode::Mul);
    assert_eq!(m.scale(), CombinedMode::Mul);
    let m = CustomCombinedMode::with_scale(CombinedMode::Add);
    assert_eq!(m.scale(), CombinedMode::Add);
    assert_eq!(m.position(), CombinedMode::Add);
    let m = CustomCombinedMode::with_position(CombinedMode::Default);
    assert_eq!(m.position(), CombinedMode::Default);
    assert_eq!(m.opacity(), CombinedMode::Mul);
    let m = CustomCombinedMode::new(
        CombinedMode::Add,
        CombinedMode::Mul,
        CombinedMode::Override,
        CombinedMode::Default,
    );
    assert_eq!(
        (m.opacity(), m.rotation(), m.scale(), m.position()),
        (CombinedMode::Add, CombinedMode::Mul, CombinedMode::Override, CombinedMode::Default)
    );
}

#[test]
fn default_mode_uses_each_fields_rule() {
    assert_eq!(CombinedMode::Default.op_for(VisualField::Opacity), CombineOp::Mul);
    assert_eq!(CombinedMode::Default.op_for(VisualField::Rotation), CombineOp::Add);
    assert_eq!(CombinedMode::Default.op_for(VisualField::Scale), CombineOp::Mul);
    assert_eq!(CombinedMode::Default.op_for(VisualField::Position), CombineOp::Add);
    assert_eq!(CombinedMode::Mul.op_for(VisualField::Position), CombineOp::Mul);
    assert_eq!(CombinedMode::Add.op_for(VisualField::Scale), CombineOp::Add);
    assert_eq!(CombinedMode::Override.op_for(VisualField::Opacity), CombineOp::Replace);
    assert_eq!(CombinedMode::Override.op_for(VisualField::Scale), CombineOp::Replace);
}

#[test]
fn all_default_modes_equal_default_combined_mode() {
    let d = CustomCombinedMode::default();
    let fields = [
        (VisualField::Opacity, d.opacity()),
        (VisualField::Rotation, d.rotation()),
        (VisualField::Scale, d.scale()),
        (VisualField::Position, d.position()),
    ];
    for (field, mode) in fields {
        assert_eq!(mode.op_for(field), CombinedMode::Default.op_for(field));
        assert_eq!(mode.op_for(field), field.default_op());
    }
}
