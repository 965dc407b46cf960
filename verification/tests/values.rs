use eww::app::{stacking_strategy_of, StackingStrategy};
use eww::config::{
    AnchorAlignment, AnchorPoint, Coords, EwwConfig, EwwWindowDefinition, NumWithUnit,
    WindowGeometry, WindowStacking,
};
use eww::value::{i64_to_string, u64_to_string, PrimitiveValue};

#[test]
fn decimal_rendering_is_exact() {
    assert_eq!(u64_to_string(0), "0");
    assert_eq!(u64_to_string(7), "7");
    assert_eq!(u64_to_string(1024), "1024");
    assert_eq!(i64_to_string(-123), "-123");
    assert_eq!(i64_to_string(0), "0");
    assert_eq!(i64_to_string(i64::MIN), "-9223372036854775808");
    assert_eq!(i64_to_string(i64::MAX), "9223372036854775807");
}

#[test]
fn values_display_by_kind() {
    assert_eq!(PrimitiveValue::Text("hi".to_string()).display_string(), "hi");
    assert_eq!(PrimitiveValue::Num(-5).display_string(), "-5");
    assert_eq!(PrimitiveValue::Bool(true).display_string(), "true");
    assert_eq!(PrimitiveValue::Bool(false).display_string(), "false");
    assert_eq!(PrimitiveValue::uninitialized().display_string(), "");
}

#[test]
fn geometry_overrides_only_what_is_given() {
    let base = WindowGeometry {
        anchor_point: AnchorPoint { x: AnchorAlignment::Start, y: AnchorAlignment::End },
        offset: Coords { x: NumWithUnit::Pixels(1), y: NumWithUnit::Pixels(2) },
        size: Coords { x: NumWithUnit::Percent(10), y: NumWithUnit::Percent(20) },
    };
    let new_offset = Coords { x: NumWithUnit::Pixels(9), y: NumWithUnit::Pixels(9) };
    let overridden = base.override_if_given(None, Some(new_offset), None);
    assert_eq!(overridden.anchor_point, base.anchor_point);
    assert_eq!(overridden.offset, new_offset);
    assert_eq!(overridden.size, base.size);
    let untouched = base.override_if_given(None, None, None);
    assert_eq!(untouched, base);
}

#[test]
fn stacking_translates_to_strategy() {
    assert_eq!(
        stacking_strategy_of(WindowStacking::Foreground),
        StackingStrategy::AlwaysOnTop
    );
    assert_eq!(
        stacking_strategy_of(WindowStacking::Background),
        StackingStrategy::AlwaysOnBottom
    );
}

#[test]
fn config_lookup_and_validation() {
    let mut cfg = EwwConfig::new();
    cfg.define_window(EwwWindowDefinition {
        name: "bar".to_string(),
        geometry: WindowGeometry {
            anchor_point: AnchorPoint { x: AnchorAlignment::Center, y: AnchorAlignment::Center },
            offset: Coords { x: NumWithUnit::Pixels(0), y: NumWithUnit::Pixels(0) },
            size: Coords { x: NumWithUnit::Pixels(30), y: NumWithUnit::Pixels(30) },
        },
        stacking: WindowStacking::Background,
        focusable: true,
        screen_number: Some(1),
        var_refs: vec!["volume".to_string()],
    });
    assert!(cfg.validate());
    assert!(cfg.get_window(&"bar".to_string()).is_ok());
    let missing = cfg.get_window(&"baz".to_string());
    assert!(missing.is_err());
    assert_eq!(
        missing.unwrap_err().message(),
        "No window named 'baz' exists in the configuration"
    );
}
