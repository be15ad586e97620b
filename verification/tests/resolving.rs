use mesh_batch::resolve::{
    available_formats, find_compatible_buffer, is_compatible, is_slice_sorted,
    is_slice_sorted_by_key, resolve_all, VertexBufferLayout,
};
use mesh_batch::vertex::{Attribute, VertexFormat};

fn at(offset: u32, name: u32) -> Attribute {
    Attribute { offset, name, index: 0, format: 106 }
}

fn fmt(stride: u32, attributes: Vec<Attribute>) -> VertexFormat {
    VertexFormat { stride, attributes }
}

fn layout(offset: u64, format: VertexFormat) -> VertexBufferLayout {
    VertexBufferLayout { offset, format }
}

fn format_a() -> VertexFormat {
    fmt(8, vec![at(0, 6)])
}

fn format_b() -> VertexFormat {
    fmt(12, vec![at(0, 3)])
}

fn format_c() -> VertexFormat {
    fmt(12, vec![at(0, 4)])
}

fn layouts_abc() -> Vec<VertexBufferLayout> {
    vec![layout(0, format_a()), layout(80, format_b()), layout(200, format_c())]
}

#[test]
fn compatible_needs_equal_stride() {
    let stored = fmt(32, vec![at(0, 4), at(12, 3)]);
    assert!(is_compatible(&stored, &fmt(32, vec![at(0, 4)])));
    assert!(!is_compatible(&stored, &fmt(12, vec![at(0, 4)])));
}

#[test]
fn compatible_finds_requested_attributes_in_one_forward_scan() {
    let stored = fmt(32, vec![at(0, 4), at(12, 3), at(24, 6)]);
    assert!(is_compatible(&stored, &fmt(32, vec![at(0, 4), at(24, 6)])));
    assert!(is_compatible(&stored, &fmt(32, vec![at(12, 3)])));
    assert!(is_compatible(&stored, &fmt(32, vec![])));
    assert!(is_compatible(&stored, &stored.clone()));
    // The cursor stays on the attribute that it found: asking for it again succeeds.
    assert!(is_compatible(&stored, &fmt(32, vec![at(12, 3), at(12, 3)])));
}

#[test]
fn compatible_does_not_look_back() {
    let stored = fmt(32, vec![at(0, 4), at(12, 3), at(24, 6)]);
    // Both attributes are stored, but not in the requested order.
    assert!(!is_compatible(&stored, &fmt(32, vec![at(24, 6), at(0, 4)])));
    assert!(!is_compatible(&stored, &fmt(32, vec![at(12, 3), at(0, 4)])));
}

#[test]
fn compatible_fails_on_an_attribute_that_is_not_stored() {
    let stored = fmt(32, vec![at(0, 4), at(12, 3)]);
    assert!(!is_compatible(&stored, &fmt(32, vec![at(0, 4), at(24, 6)])));
    assert!(!is_compatible(&stored, &fmt(32, vec![at(4, 4)])));
    assert!(!is_compatible(&fmt(32, vec![]), &fmt(32, vec![at(0, 4)])));
}

#[test]
fn find_compatible_buffer_returns_the_first_match() {
    let layouts = layouts_abc();
    assert_eq!(find_compatible_buffer(&layouts, &format_a()), Some(0));
    assert_eq!(find_compatible_buffer(&layouts, &format_b()), Some(1));
    assert_eq!(find_compatible_buffer(&layouts, &format_c()), Some(2));
    assert_eq!(find_compatible_buffer(&layouts, &fmt(12, vec![])), Some(1));
    assert_eq!(find_compatible_buffer(&layouts, &fmt(16, vec![])), None);
    assert_eq!(find_compatible_buffer(&layouts[2..], &format_b()), None);
    assert_eq!(find_compatible_buffer(&[], &format_a()), None);
}

#[test]
fn resolve_b_then_c_against_sorted_abc() {
    let layouts = layouts_abc();
    let offsets = resolve_all(&layouts, &[format_b(), format_c()]).unwrap();
    assert_eq!(offsets, vec![80, 200]);
}

#[test]
fn resolve_every_sorted_subset_of_the_stored_formats() {
    let layouts = layouts_abc();
    let all = [format_a(), format_b(), format_c()];
    let offsets = [0u64, 80, 200];
    for mask in 0..8u32 {
        let mut request = Vec::new();
        let mut expected = Vec::new();
        for i in 0..3 {
            if mask & (1 << i) != 0 {
                request.push(all[i].clone());
                expected.push(offsets[i]);
            }
        }
        assert!(is_slice_sorted(&request));
        assert_eq!(resolve_all(&layouts, &request).unwrap(), expected);
    }
}

#[test]
fn resolve_nothing_requested_gives_nothing() {
    assert_eq!(resolve_all(&layouts_abc(), &[]).unwrap(), Vec::<u64>::new());
    assert_eq!(resolve_all(&[], &[]).unwrap(), Vec::<u64>::new());
}

#[test]
fn resolve_same_format_twice_binds_the_same_buffer_twice() {
    let offsets = resolve_all(&layouts_abc(), &[format_b(), format_b()]).unwrap();
    assert_eq!(offsets, vec![80, 80]);
}

#[test]
fn resolve_unknown_format_names_it_and_lists_what_is_there() {
    let unknown = fmt(20, vec![at(0, 1)]);
    let error = resolve_all(&layouts_abc(), &[unknown.clone()]).unwrap_err();
    assert_eq!(error.not_found, unknown);
    assert_eq!(error.in_formats, vec![format_a(), format_b(), format_c()]);
}

#[test]
fn resolve_fails_on_the_first_format_that_is_missing() {
    let first = fmt(20, vec![at(0, 1)]);
    let second = fmt(24, vec![at(0, 1)]);
    let error = resolve_all(&layouts_abc(), &[format_a(), first.clone(), second]).unwrap_err();
    assert_eq!(error.not_found, first);
}

#[test]
fn resolve_cursor_never_goes_back() {
    // A is stored before B; once B was found, A is out of reach.
    let error = resolve_all(&layouts_abc(), &[format_b(), format_a()]).unwrap_err();
    assert_eq!(error.not_found, format_a());
    assert_eq!(error.in_formats.len(), 3);
}

#[test]
fn resolve_against_no_layouts_fails() {
    let error = resolve_all(&[], &[format_a()]).unwrap_err();
    assert_eq!(error.not_found, format_a());
    assert!(error.in_formats.is_empty());
}

#[test]
fn resolve_format_outside_the_stored_set_can_still_be_served() {
    // A stored format with more attributes serves a request for fewer of them.
    let stored = fmt(32, vec![at(0, 4), at(12, 3)]);
    let layouts = vec![layout(64, stored)];
    let request = fmt(32, vec![at(12, 3)]);
    assert_eq!(resolve_all(&layouts, &[request]).unwrap(), vec![64]);
}

#[test]
fn available_formats_keeps_the_order_of_the_layouts() {
    assert_eq!(available_formats(&layouts_abc()), vec![format_a(), format_b(), format_c()]);
    assert!(available_formats(&[]).is_empty());
}

#[test]
fn slice_sorted_on_integers() {
    assert!(is_slice_sorted::<u32>(&[]));
    assert!(is_slice_sorted(&[7u32]));
    assert!(is_slice_sorted(&[1u32, 2, 2, 5]));
    assert!(!is_slice_sorted(&[1u32, 3, 2]));
    assert!(!is_slice_sorted(&[2u32, 1]));
}

#[test]
fn slice_sorted_on_formats_uses_the_canonical_order() {
    assert!(is_slice_sorted(&[format_a(), format_b(), format_c()]));
    assert!(is_slice_sorted(&[format_a(), format_a()]));
    assert!(!is_slice_sorted(&[format_c(), format_b()]));
    assert!(!is_slice_sorted(&[format_b(), format_a(), format_c()]));
}

#[test]
fn slice_sorted_by_key_takes_the_key_of_each_item() {
    let layouts = layouts_abc();
    assert!(is_slice_sorted_by_key(&layouts, |l| &l.format));
    assert!(is_slice_sorted_by_key(&layouts, |l| l.offset));
    let reversed = vec![layout(0, format_c()), layout(5, format_a())];
    assert!(!is_slice_sorted_by_key(&reversed, |l| &l.format));
    assert!(is_slice_sorted_by_key(&reversed, |l| l.offset));
    assert!(is_slice_sorted_by_key(&[] as &[VertexBufferLayout], |l| l.offset));
}

#[test]
fn slice_sorted_by_key_stops_at_the_first_pair_out_of_order() {
    let calls = std::cell::Cell::new(0);
    let items = [1u32, 5, 3, 9, 10];
    let sorted = is_slice_sorted_by_key(&items, |x| {
        calls.set(calls.get() + 1);
        *x
    });
    assert!(!sorted);
    assert_eq!(calls.get(), 3);
}
