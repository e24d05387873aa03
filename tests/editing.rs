use pathy::editor::display_mode;
use pathy::{CursorMode, CurveHit, HandleRef, HandleSlot, Path, Pos, Viewport, generate, interpolate};

const VIEW: Viewport = Viewport { scale: 720, size: 140_500 };
const FIELD: u32 = 140_500;

fn p(x: i64, y: i64) -> Pos {
    Pos::new(x * 1000, y * 1000)
}

fn path_of(points: &[(i64, i64)]) -> Path {
    let mut path = Path::new();
    for (i, &(x, y)) in points.iter().enumerate() {
        assert!(path.append(p(x, y), i as u128 + 1, 0));
    }
    path
}

#[test]
fn create_on_empty_path() {
    let mut path = Path::new();
    let id = path.fresh_id().unwrap();
    assert!(path.click(CursorMode::Create, Some(p(10, 10)), None, None, FIELD, id, 0));
    assert_eq!(path.len(), 1);
    assert_eq!(path.points[0].pos.pos(), p(10, 10));
    assert_eq!(path.points[0].id, id);
    assert!(!path.points[0].broken);
}

#[test]
fn create_second_anchor_emits_one_segment() {
    let mut path = path_of(&[(0, 0)]);
    assert!(path.click(CursorMode::Create, Some(p(100, 0)), None, None, FIELD, 77, 0));
    assert_eq!(path.len(), 2);
    let text = generate(&path.points, 1000);
    assert_eq!(
        text,
        "std::vector<wolflib::Moment> = wolf.solve({\n    {{0.000_in, 0.000_in}, {5.000_in, 0.000_in}, {52.500_in, 0.000_in}, {100.000_in, 0.000_in}}}, 1);"
    );
    assert_eq!(text.matches("_in}}").count(), 1);
}

#[test]
fn create_joins_tangent_to_previous_segment() {
    let mut path = path_of(&[(0, 0)]);
    assert!(path.append(p(100, 0), 9, 0));
    let b = &path.points[1];
    assert_eq!(b.cp1.pos(), Pos::new(52_500, 0));
    assert_eq!(b.cp2.pos(), Pos::new(147_500, 0));
}

#[test]
fn create_ignored_over_a_handle_or_off_field() {
    let mut path = path_of(&[(20, 20)]);
    let hovered = Some(HandleRef { anchor: 0, slot: HandleSlot::Pos });
    assert!(!path.click(CursorMode::Create, Some(p(20, 20)), hovered, None, FIELD, 5, 0));
    assert!(!path.click(CursorMode::Create, Some(p(-1, 20)), None, None, FIELD, 5, 0));
    assert!(!path.click(CursorMode::Create, Some(p(20, 141)), None, None, FIELD, 5, 0));
    assert!(!path.click(CursorMode::Create, None, None, None, FIELD, 5, 0));
    assert_eq!(path.len(), 1);
}

#[test]
fn create_refuses_an_id_in_use() {
    let mut path = path_of(&[(20, 20)]);
    assert!(!path.append(p(30, 30), 1, 0));
    assert_eq!(path.len(), 1);
}

#[test]
fn dragging_control_a_mirrors_control_b() {
    let mut path = path_of(&[(10, 20), (60, 20)]);
    let r = HandleRef { anchor: 0, slot: HandleSlot::Cp1 };
    path.press(Some(r), CursorMode::Default);
    assert!(path.drag_to(p(5, 5)));
    let a = &path.points[0];
    assert_eq!(a.cp1.pos(), p(5, 5));
    assert_eq!(a.cp2.pos(), p(2 * 10 - 5, 2 * 20 - 5));
    assert_eq!(a.pos.pos(), p(10, 20));
    path.release();
    assert!(!path.drag_to(p(7, 7)));
}

#[test]
fn dragging_pos_carries_controls() {
    let mut path = path_of(&[(10, 20), (60, 20)]);
    let before = path.points[1];
    assert!(path.move_handle(HandleRef { anchor: 1, slot: HandleSlot::Pos }, p(70, 30)));
    let a = &path.points[1];
    assert_eq!(a.pos.pos(), p(70, 30));
    assert_eq!(a.cp1.pos(), Pos::new(before.cp1.x + 10_000, before.cp1.y + 10_000));
    assert_eq!(a.cp2.pos(), Pos::new(before.cp2.x + 10_000, before.cp2.y + 10_000));
}

#[test]
fn dragging_control_b_keeps_it_and_mirrors_control_a() {
    let mut path = path_of(&[(10, 20)]);
    assert!(path.move_handle(HandleRef { anchor: 0, slot: HandleSlot::Cp2 }, p(12, 25)));
    let a = &path.points[0];
    assert_eq!(a.cp2.pos(), p(12, 25));
    assert_eq!(a.cp1.pos(), p(8, 15));
}

#[test]
fn broken_anchor_controls_move_independently() {
    let mut path = path_of(&[(10, 20)]);
    path.points[0].broken = true;
    let cp2 = path.points[0].cp2.pos();
    assert!(path.move_handle(HandleRef { anchor: 0, slot: HandleSlot::Cp1 }, p(3, 3)));
    assert_eq!(path.points[0].cp1.pos(), p(3, 3));
    assert_eq!(path.points[0].cp2.pos(), cp2);
}

#[test]
fn drag_refused_out_of_range() {
    let mut path = path_of(&[(10, 20)]);
    let far = Pos::new(-999_999_000, 0);
    assert!(!path.move_handle(HandleRef { anchor: 0, slot: HandleSlot::Cp1 }, far));
    assert_eq!(path.points[0].cp1.pos(), Pos::new(5_000, 20_000));
    assert!(!path.move_handle(HandleRef { anchor: 3, slot: HandleSlot::Cp1 }, p(1, 1)));
}

#[test]
fn no_drag_in_delete_mode() {
    let mut path = path_of(&[(10, 20)]);
    path.press(Some(HandleRef { anchor: 0, slot: HandleSlot::Pos }), CursorMode::Delete);
    assert!(path.selected.is_none());
    assert!(!path.points[0].pos.locked);
    path.press(Some(HandleRef { anchor: 0, slot: HandleSlot::Pos }), CursorMode::Create);
    assert!(path.points[0].pos.locked);
}

#[test]
fn hover_on_pos_picks_pos() {
    let mut path = path_of(&[(10, 20), (60, 20)]);
    let hit = path.hover(Some(p(60, 20)), VIEW);
    assert_eq!(hit, Some(HandleRef { anchor: 1, slot: HandleSlot::Pos }));
    assert!(path.points[1].pos.selected);
    assert!(!path.points[1].cp1.selected);
    assert!(!path.points[0].pos.selected);
}

#[test]
fn hover_picks_nearest_handle_of_first_anchor_hit() {
    let mut path = path_of(&[(10, 20), (60, 20)]);
    // cp2 of the first anchor lies at (15, 20).
    let hit = path.hover(Some(Pos::new(15_300, 20_000)), VIEW);
    assert_eq!(hit, Some(HandleRef { anchor: 0, slot: HandleSlot::Cp2 }));
    let miss = path.hover(Some(p(100, 100)), VIEW);
    assert_eq!(miss, None);
    assert!(!path.points[0].cp2.selected);
    assert_eq!(path.hover(None, VIEW), None);
}

#[test]
fn trim_keeps_prefix() {
    let mut path = path_of(&[(10, 10), (20, 20), (30, 30), (40, 40)]);
    let h = Some(HandleRef { anchor: 2, slot: HandleSlot::Cp1 });
    assert!(path.click(CursorMode::Trim, None, h, None, FIELD, 0, 0));
    assert_eq!(path.len(), 2);
    assert_eq!(path.points[1].id, 2);
    let mut whole = path_of(&[(10, 10), (20, 20)]);
    assert!(whole.trim(0));
    assert_eq!(whole.len(), 0);
}

#[test]
fn delete_shifts_later_anchors() {
    let mut path = path_of(&[(10, 10), (20, 20), (30, 30), (40, 40)]);
    let h = Some(HandleRef { anchor: 1, slot: HandleSlot::Pos });
    assert!(path.click(CursorMode::Delete, None, h, None, FIELD, 0, 0));
    let ids: Vec<u128> = path.points.iter().map(|a| a.id).collect();
    assert_eq!(ids, vec![1, 3, 4]);
    assert_eq!(path.points[1].pos.pos(), p(30, 30));
    assert!(!path.delete(3));
}

#[test]
fn delete_and_trim_need_a_target() {
    let mut path = path_of(&[(10, 10), (20, 20)]);
    assert!(!path.click(CursorMode::Delete, Some(p(0, 0)), None, None, FIELD, 0, 0));
    assert!(!path.click(CursorMode::Trim, Some(p(0, 0)), None, None, FIELD, 0, 0));
    assert!(!path.click(CursorMode::Default, Some(p(50, 50)), None, None, FIELD, 0, 0));
    assert_eq!(path.len(), 2);
}

#[test]
fn delete_adjusts_drag() {
    let mut path = path_of(&[(10, 10), (20, 20), (30, 30)]);
    path.press(Some(HandleRef { anchor: 2, slot: HandleSlot::Pos }), CursorMode::Default);
    assert!(path.delete(0));
    assert_eq!(path.selected, Some(HandleRef { anchor: 1, slot: HandleSlot::Pos }));
    assert!(path.delete(1));
    assert_eq!(path.selected, None);
}

#[test]
fn insert_far_from_curve_does_nothing() {
    let mut path = path_of(&[(10, 10), (60, 10)]);
    path.sample_counts(1_000);
    let counts = path.sample_counts(2_000);
    assert_eq!(counts, vec![50]);
    let hit = path.curve_hit(&counts, Some(p(100, 120)), VIEW);
    assert_eq!(hit, None);
    assert!(!path.click(CursorMode::Insert, Some(p(100, 120)), None, hit, FIELD, 5, 0));
    assert_eq!(path.len(), 2);
}

#[test]
fn insert_on_curve_adds_anchor_after_segment_start() {
    let mut path = path_of(&[(10, 10), (60, 10), (90, 40)]);
    // The first tick starts the draw-in; it has finished 150 ms later.
    let first = path.sample_counts(1_000);
    assert_eq!(first, vec![0, 0]);
    assert!(!path.points[1].animated);
    let counts = path.sample_counts(1_150);
    assert!(path.points[1].animated && path.points[2].animated);
    let n = counts[0];
    assert_eq!(n, 50);
    let on_curve = interpolate(&path.points[0], &path.points[1], 20, n);
    let hit = path.curve_hit(&counts, Some(on_curve), VIEW).unwrap();
    assert_eq!(hit, CurveHit { segment: 0, k: 20, n: 50 });
    assert!(path.click(CursorMode::Insert, None, None, Some(hit), FIELD, 50, 0));
    assert_eq!(path.len(), 4);
    assert_eq!(path.points[1].id, 50);
    assert_eq!(path.points[2].id, 2);
    let a = path.points[1];
    assert_eq!(a.pos.pos(), on_curve);
    assert_eq!(a.cp2.pos(), interpolate(&path.points[0], &path.points[2], 250, 500));
    assert_eq!(a.cp1.x + a.cp2.x, 2 * a.pos.x);
    assert_eq!(a.cp1.y + a.cp2.y, 2 * a.pos.y);
}

#[test]
fn draw_in_eases_sample_count() {
    let mut path = path_of(&[(0, 0), (0, 100)]);
    assert_eq!(path.sample_counts(500), vec![0]);
    assert_eq!(path.sample_counts(575), vec![50]);
    assert!(!path.points[1].animated);
    assert_eq!(path.sample_counts(650), vec![100]);
    assert!(path.points[1].animated);
    // Once drawn in, the count follows the distance at once.
    assert!(path.move_handle(HandleRef { anchor: 1, slot: HandleSlot::Pos }, p(0, 40)));
    assert_eq!(path.sample_counts(651), vec![40]);
    let samples = path.segment_samples(0, 40);
    assert_eq!(samples.len(), 39);
    assert_eq!(samples[0], interpolate(&path.points[0], &path.points[1], 1, 40));
}

#[test]
fn fresh_ids_are_random_v4_and_unused() {
    let path = path_of(&[(10, 10), (20, 20)]);
    let a = path.fresh_id().unwrap();
    let b = path.fresh_id().unwrap();
    assert_ne!(a, b);
    for id in [a, b] {
        assert!(!path.has_id(id));
        assert_eq!((id >> 76) & 0xf, 4);
        assert_eq!((id >> 62) & 0x3, 2);
    }
}

#[test]
fn unbroken_anchors_stay_mirrored_through_edits() {
    let mut path = path_of(&[(10, 10), (40, 60), (90, 20), (120, 70)]);
    let moves = [
        (1, HandleSlot::Pos, (45, 65)),
        (1, HandleSlot::Cp2, (70, 80)),
        (2, HandleSlot::Cp1, (60, 10)),
        (0, HandleSlot::Cp1, (3, 17)),
        (2, HandleSlot::Pos, (95, 25)),
        (3, HandleSlot::Cp2, (130, 90)),
    ];
    for (anchor, slot, (x, y)) in moves {
        assert!(path.move_handle(HandleRef { anchor, slot }, p(x, y)));
    }
    assert!(path.delete(0));
    let id = path.fresh_id().unwrap();
    assert!(path.append(p(140, 100), id, 0));
    for a in &path.points {
        assert_eq!(a.cp2.x, 2 * a.pos.x - a.cp1.x);
        assert_eq!(a.cp2.y, 2 * a.pos.y - a.cp1.y);
    }
}

#[test]
fn coordinates_at_the_range_limit() {
    let max = pathy::geom::MAX_COORD;
    let mut path = Path::new();
    // The default control handle would fall off the range on the left.
    assert!(!path.append(Pos::new(-max, 0), 1, 0));
    assert!(path.append(Pos::new(max - 5_000, max), 1, 0));
    assert_eq!(path.points[0].cp2.pos(), Pos::new(max, max));
    assert!(!path.move_handle(HandleRef { anchor: 0, slot: HandleSlot::Pos }, Pos::new(max, max)));
    assert!(path.move_handle(HandleRef { anchor: 0, slot: HandleSlot::Pos }, Pos::new(0, 0)));
    assert_eq!(path.points[0].cp1.pos(), Pos::new(-5_000, 0));
}

#[test]
fn mode_selection_toggles() {
    assert_eq!(CursorMode::Default.toggled(CursorMode::Trim), CursorMode::Trim);
    assert_eq!(CursorMode::Trim.toggled(CursorMode::Trim), CursorMode::Default);
    assert_eq!(CursorMode::Insert.toggled(CursorMode::Create), CursorMode::Create);
    assert!(CursorMode::Insert.quiet_hover());
    assert!(!CursorMode::Create.quiet_hover());
    assert!(!CursorMode::Trim.allows_drag());
}

#[test]
fn handle_emphasis_and_warning() {
    let mut path = path_of(&[(10, 20)]);
    path.hover(Some(p(10, 20)), VIEW);
    let a = path.points[0];
    assert!(a.pos.emphasized(CursorMode::Create));
    assert!(!a.pos.emphasized(CursorMode::Delete));
    assert_eq!(a.pos.get_radius(), pathy::point::HOVER_RADIUS);
    assert_eq!(a.cp1.get_radius(), pathy::point::RADIUS);
    assert!(a.warned(CursorMode::Delete));
    assert!(a.warned(CursorMode::Trim));
    assert!(!a.warned(CursorMode::Create));
}

#[test]
fn empty_path_always_gets_an_id() {
    let path = Path::new();
    for _ in 0..8 {
        assert!(path.fresh_id().is_some());
    }
}

#[test]
fn trim_marks_hovered_anchor_and_later_ones() {
    let h = Some(HandleRef { anchor: 2, slot: HandleSlot::Cp2 });
    assert_eq!(display_mode(CursorMode::Trim, h, 1), CursorMode::Delete);
    assert_eq!(display_mode(CursorMode::Trim, h, 2), CursorMode::Trim);
    assert_eq!(display_mode(CursorMode::Trim, h, 5), CursorMode::Trim);
    assert_eq!(display_mode(CursorMode::Trim, None, 0), CursorMode::Delete);
    assert_eq!(display_mode(CursorMode::Insert, h, 3), CursorMode::Insert);
}
