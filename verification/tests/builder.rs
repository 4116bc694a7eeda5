use ticklog::builder::{effective_backpressure, validate_config, Backpressure, TicklogError};
use ticklog::format::PatternError;
use ticklog::ring::DEFAULT_RING_SIZE;

#[test]
fn backpressure_discriminants() {
    assert_eq!(Backpressure::Drop as u8, 0);
    assert_eq!(Backpressure::Block as u8, 1);
    assert_eq!(Backpressure::NanoLog as u8, 2);
    assert_eq!(Backpressure::Quill as u8, 3);
}

#[test]
fn configure_rt_rejects_out_of_range_timezone_offset() {
    assert!(matches!(
        validate_config(50_401, DEFAULT_RING_SIZE, b""),
        Err(TicklogError::InvalidTimezoneOffset(50_401))
    ));
    assert!(matches!(
        validate_config(-43_201, DEFAULT_RING_SIZE, b""),
        Err(TicklogError::InvalidTimezoneOffset(-43_201))
    ));
}

#[test]
fn configure_rt_rejects_invalid_format_pattern() {
    let result = validate_config(0, DEFAULT_RING_SIZE, b"{unknown_field}");
    assert!(matches!(result, Err(TicklogError::InvalidFormatPattern(_))));
}

#[test]
fn configure_rt_rejects_invalid_ring_capacity() {
    assert!(matches!(
        validate_config(0, 1_000_000, b"{}"),
        Err(TicklogError::InvalidRingCapacity(1_000_000))
    ));
    assert!(matches!(validate_config(0, 8, b"{}"), Err(TicklogError::InvalidRingCapacity(8))));
}

#[test]
fn configure_accepts_the_edges_and_the_default_pattern() {
    assert!(validate_config(-43_200, 64, b"").is_ok());
    assert!(validate_config(50_400, DEFAULT_RING_SIZE, b"{message}").is_ok());
    assert_eq!(validate_config(0, 64, b"").unwrap().segments.len(), 9);
}

#[test]
fn pattern_error_is_reported_with_its_position() {
    assert_eq!(
        validate_config(0, 64, b"x {lvl}").err(),
        Some(TicklogError::InvalidFormatPattern(PatternError::UnknownField { at: 2 }))
    );
}

#[test]
fn segmented_policies_degrade_on_fifo_backends() {
    assert_eq!(effective_backpressure(Backpressure::NanoLog, true), Backpressure::Block);
    assert_eq!(effective_backpressure(Backpressure::Quill, true), Backpressure::Block);
    assert_eq!(effective_backpressure(Backpressure::Quill, false), Backpressure::Quill);
    assert_eq!(effective_backpressure(Backpressure::Drop, true), Backpressure::Drop);
}

#[test]
fn large_power_of_two_capacities_are_accepted() {
    assert!(validate_config(0, 1usize << 50, b"").is_ok());
    assert!(validate_config(0, 1usize << 62, b"").is_ok());
    assert!(matches!(
        validate_config(0, 1usize << 63, b""),
        Err(TicklogError::InvalidRingCapacity(c)) if c == 1usize << 63
    ));
}
