use sweep::layout::{LayoutError, WindowLayout, WindowLayoutSize};

#[test]
fn layout_defaults_and_attributes() {
    assert_eq!(
        WindowLayout::from_str("float"),
        Ok(WindowLayout::Float {
            height: WindowLayoutSize::Absolute(11),
            width: WindowLayoutSize::Full,
            column: WindowLayoutSize::Absolute(0),
            row: WindowLayoutSize::Full,
        })
    );
    assert_eq!(
        WindowLayout::from_str(" float, h = 20 ,w=50%, c=-3, row=dynamic, bogus, x=1 "),
        Ok(WindowLayout::Float {
            height: WindowLayoutSize::Absolute(20),
            width: WindowLayoutSize::Fraction("50".to_string()),
            column: WindowLayoutSize::Absolute(-3),
            row: WindowLayoutSize::Full,
        })
    );
    assert_eq!(
        WindowLayout::from_str("full"),
        Ok(WindowLayout::Full { height: WindowLayoutSize::Full })
    );
    assert_eq!(
        WindowLayout::from_str("full,height=12,w=3"),
        Ok(WindowLayout::Full { height: WindowLayoutSize::Absolute(12) })
    );
    // a later attribute wins
    assert_eq!(
        WindowLayout::from_str("full,h=1,h=2"),
        Ok(WindowLayout::Full { height: WindowLayoutSize::Absolute(2) })
    );
}

#[test]
fn layout_errors_and_sizes() {
    assert_eq!(
        WindowLayout::from_str("tiled,h=1"),
        Err(LayoutError::InvalidName("tiled".to_string()))
    );
    assert_eq!(
        WindowLayout::from_str("float,h=tall"),
        Err(LayoutError::InvalidSize("tall".to_string()))
    );
    assert_eq!(
        WindowLayout::from_str("full,h=x,h=y"),
        Err(LayoutError::InvalidSize("x".to_string()))
    );
    assert_eq!(WindowLayoutSize::calc_absolute(5, 10), 5);
    assert_eq!(WindowLayoutSize::calc_absolute(50, 10), 10);
    assert_eq!(WindowLayoutSize::calc_absolute(-3, 10), 7);
    assert_eq!(WindowLayoutSize::calc_absolute(-30, 10), 0);
    assert!(WindowLayoutSize::Full.is_full());
}
