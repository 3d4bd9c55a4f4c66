use std::collections::HashMap;

use indexmap::IndexMap;
use nablo_ui::layout::solver::{child_placement, children_clip};
use nablo_ui::layout::{Layout, LayoutId};
use nablo_ui::math::color::Color;
use nablo_ui::math::rect::Rect;
use nablo_ui::math::vec2::Vec2;
use nablo_ui::render::painter::Painter;
use nablo_ui::render::shape::FillMode;
use nablo_ui::widgets::Widget;
use nablo_ui::window::input_state::InputState;

/// A widget that places its children as it was told, and notes what it was asked.
struct Panel {
    name: &'static str,
    size: Vec2,
    answers: Vec<(usize, Option<Rect>)>,
    seen: Vec<usize>,
    wants_redraw: bool,
}

impl Panel {
    fn new(name: &'static str) -> Panel {
        Panel { name, size: Vec2::new(10, 10), answers: Vec::new(), seen: Vec::new(), wants_redraw: false }
    }

    fn placing(name: &'static str, answers: Vec<(usize, Option<Rect>)>) -> Panel {
        Panel { name, size: Vec2::new(10, 10), answers, seen: Vec::new(), wants_redraw: false }
    }
}

impl Widget for Panel {
    type Signal = ();
    fn handle_event(&mut self, input: &mut InputState<()>, id: LayoutId, _: Rect, _: Vec2) -> bool {
        assert_eq!(input.handling_id, id);
        input.send_signal(());
        self.wants_redraw
    }

    fn draw(&mut self, painter: &mut Painter, size: Vec2) {
        painter.set_fill_mode(FillMode::Color(Color::new(255, 0, 0, 255)));
        painter.draw_rect(Rect::from_size(size), Color::same(0));
    }

    fn size(&self, _: LayoutId, _: &Painter, _: &Layout<Self>) -> Vec2 {
        self.size
    }

    fn handle_child_layout(&mut self, childs: IndexMap<usize, Vec2>, _: Rect, _: LayoutId) -> HashMap<usize, Option<Rect>> {
        self.seen = childs.keys().copied().collect();
        self.answers.iter().copied().collect()
    }
}

fn names(widgets: &[Panel]) -> Vec<&'static str> {
    widgets.iter().map(|w| w.name).collect()
}

/// root(0) -> a(1) -> c(3), root -> b(2)
fn small_tree() -> Layout<Panel> {
    let mut layout = Layout::new();
    assert!(!layout.insert_root_widget(Panel::new("root")));
    assert_eq!(layout.add_widget(LayoutId(0), Panel::new("a")), Some(LayoutId(1)));
    assert_eq!(layout.add_widget(LayoutId(0), Panel::new("b")), Some(LayoutId(2)));
    assert_eq!(layout.add_widget(LayoutId(1), Panel::new("c")), Some(LayoutId(3)));
    layout
}

fn consistent(layout: &Layout<Panel>, ids: &[usize]) {
    for &id in ids {
        let id = LayoutId(id);
        if !layout.contains(id) {
            continue;
        }
        let parent = layout.get_parent_id(id).unwrap();
        if id.0 == 0 {
            assert_eq!(parent, id);
        } else {
            assert!(layout.contains(parent));
            assert!(layout.get_children_ids(parent).unwrap().contains(&id));
        }
        for child in layout.get_children_ids(id).unwrap() {
            assert_eq!(layout.get_parent_id(*child), Some(id));
        }
    }
}

#[test]
fn new_layout_is_empty() {
    let layout: Layout<Panel> = Layout::new();
    assert_eq!(layout.widgets(), 0);
    assert_eq!(layout.layers(), 0);
    assert!(!layout.contains(LayoutId(0)));
    assert_eq!(layout.get_parent_id(LayoutId(0)), None);
}

#[test]
fn insert_root_places_it_over_the_window() {
    let mut layout = Layout::new();
    assert!(!layout.insert_root_widget(Panel::new("root")));
    assert_eq!(layout.get_widget_area(LayoutId(0)), Some(Rect::window()));
    assert_eq!(layout.get_widget_pos(LayoutId(0)), Some(Vec2::zero()));
    assert_eq!(layout.is_dirty(LayoutId(0)), Some(true));
    assert_eq!(layout.get_parent_id(LayoutId(0)), Some(LayoutId(0)));
    assert!(layout.insert_root_widget(Panel::new("other")));
    assert_eq!(layout.get_widget(LayoutId(0)).unwrap().name, "other");
    assert_eq!(layout.widgets(), 1);
}

#[test]
fn add_widget_needs_a_parent() {
    let mut layout = Layout::new();
    assert_eq!(layout.add_widget(LayoutId(0), Panel::new("a")), None);
    assert_eq!(layout.add_widget(LayoutId(7), Panel::new("a")), None);
    assert_eq!(layout.widgets(), 0);
    layout.insert_root_widget(Panel::new("root"));
    assert_eq!(layout.add_widget(LayoutId(0), Panel::new("a")), Some(LayoutId(1)));
    assert_eq!(layout.get_widget_area(LayoutId(1)), None);
    assert_eq!(layout.is_dirty(LayoutId(1)), Some(true));
}

#[test]
fn tree_stays_consistent() {
    let mut layout = small_tree();
    consistent(&layout, &[0, 1, 2, 3]);
    assert_eq!(layout.get_children_ids(LayoutId(0)).unwrap(), &[LayoutId(1), LayoutId(2)]);
    layout.add_widget(LayoutId(2), Panel::new("d"));
    layout.remove_widget(LayoutId(1));
    consistent(&layout, &[0, 1, 2, 3, 4]);
    layout.replace_widget(LayoutId(2), Panel::new("e"));
    consistent(&layout, &[0, 1, 2, 3, 4]);
    layout.add_widget(LayoutId(2), Panel::new("f"));
    consistent(&layout, &[0, 1, 2, 3, 4, 5]);
    assert_eq!(layout.get_children_ids(LayoutId(0)).unwrap(), &[LayoutId(2)]);
    assert_eq!(layout.get_parent_id(LayoutId(5)), Some(LayoutId(2)));
}

#[test]
fn remove_widget_returns_the_subtree_in_post_order() {
    let mut layout = small_tree();
    layout.add_widget(LayoutId(1), Panel::new("d"));
    layout.add_widget(LayoutId(3), Panel::new("e"));
    let removed = layout.remove_widget(LayoutId(1));
    assert_eq!(names(&removed), vec!["e", "c", "d", "a"]);
    assert_eq!(layout.widgets(), 2);
    assert!(!layout.contains(LayoutId(1)));
    assert!(!layout.contains(LayoutId(3)));
    assert!(!layout.contains(LayoutId(4)));
    assert!(!layout.contains(LayoutId(5)));
    assert_eq!(layout.get_children_ids(LayoutId(0)).unwrap(), &[LayoutId(2)]);
    assert_eq!(layout.get_children_ids(LayoutId(1)), None);
    assert_eq!(layout.is_dirty(LayoutId(0)), Some(true));
}

#[test]
fn remove_widget_of_unknown_id_does_nothing() {
    let mut layout = small_tree();
    assert!(layout.remove_widget(LayoutId(9)).is_empty());
    assert_eq!(layout.widgets(), 4);
}

#[test]
fn remove_root_empties_the_tree() {
    let mut layout = small_tree();
    let removed = layout.remove_widget(LayoutId(0));
    assert_eq!(names(&removed), vec!["c", "a", "b", "root"]);
    assert_eq!(layout.widgets(), 0);
    assert_eq!(layout.add_widget(LayoutId(0), Panel::new("x")), None);
}

#[test]
fn remove_widget_children_keeps_the_node() {
    let mut layout = small_tree();
    let removed = layout.remove_widget_children(LayoutId(0));
    assert_eq!(names(&removed), vec!["c", "a", "b"]);
    assert!(layout.contains(LayoutId(0)));
    assert_eq!(layout.get_children_ids(LayoutId(0)).unwrap().len(), 0);
    assert!(layout.remove_widget_children(LayoutId(0)).is_empty());
}

#[test]
fn replace_widget_keeps_the_edge_to_the_parent() {
    let mut layout = small_tree();
    let mut painter = Painter::new(Vec2::new(100, 100));
    layout.handle_draw(&mut painter, Vec2::new(100, 100));
    assert_eq!(layout.is_dirty(LayoutId(0)), Some(false));
    let removed = layout.replace_widget(LayoutId(1), Panel::new("new"));
    assert_eq!(names(&removed), vec!["c"]);
    assert_eq!(layout.get_widget(LayoutId(1)).unwrap().name, "new");
    assert_eq!(layout.get_parent_id(LayoutId(1)), Some(LayoutId(0)));
    assert_eq!(layout.get_children_ids(LayoutId(0)).unwrap(), &[LayoutId(1), LayoutId(2)]);
    assert_eq!(layout.get_children_ids(LayoutId(1)).unwrap().len(), 0);
    assert_eq!(layout.get_widget_area(LayoutId(1)), None);
    assert_eq!(layout.is_dirty(LayoutId(1)), Some(true));
    assert_eq!(layout.is_dirty(LayoutId(0)), Some(true));
    assert_eq!(layout.is_dirty(LayoutId(2)), Some(false));
}

#[test]
fn aliases_stand_for_ids() {
    let mut layout = small_tree();
    layout.alias_widget(LayoutId(1), "left");
    layout.alias_widget(LayoutId(2), "right");
    assert_eq!(layout.alias_to_id("left"), Some(LayoutId(1)));
    assert_eq!(layout.alias_to_id("right"), Some(LayoutId(2)));
    assert_eq!(layout.alias_to_id("middle"), None);
    assert_eq!(layout.id_to_alias(LayoutId(1)), Some("left"));
    assert_eq!(layout.id_to_alias(LayoutId(3)), None);
    layout.alias_widget(LayoutId(3), "left");
    assert_eq!(layout.alias_to_id("left"), Some(LayoutId(3)));
    assert_eq!(layout.get_widget_by_alias("right").unwrap().name, "b");
    assert_eq!(layout.get_parent_id_by_alias("left"), Some(LayoutId(1)));
    assert_eq!(layout.get_parents_by_alias("left"), vec![LayoutId(0), LayoutId(1)]);
    assert!(layout.get_parents_by_alias("nobody").is_empty());
    assert_eq!(layout.widgets(), 4);
    let removed = layout.remove_widget_by_alias("right");
    assert_eq!(names(&removed), vec!["b"]);
    assert!(layout.remove_widget_by_alias("nobody").is_empty());
    assert!(layout.remove_widget_children_by_alias("nobody").is_empty());
    assert!(layout.replace_widget_by_alias("nobody", Panel::new("x")).is_empty());
    layout.clear();
    assert_eq!(layout.alias_to_id("left"), None);
    assert_eq!(layout.widgets(), 0);
}

#[test]
fn parents_and_layers() {
    let layout = small_tree();
    assert_eq!(layout.get_parents(LayoutId(3)), vec![LayoutId(0), LayoutId(1)]);
    assert_eq!(layout.get_parents(LayoutId(2)), vec![LayoutId(0)]);
    assert!(layout.get_parents(LayoutId(0)).is_empty());
    assert!(layout.get_parents(LayoutId(9)).is_empty());
    assert_eq!(layout.layers(), 2);
    assert_eq!(layout.widgets(), 4);
    assert_eq!(layout.get_widget_padding(LayoutId(1)), Some(Vec2::zero()));
    assert_eq!(layout.get_widget_padding(LayoutId(9)), None);
}

#[test]
fn widget_mut_changes_the_widget_and_makes_it_dirty() {
    let mut layout = small_tree();
    let mut painter = Painter::new(Vec2::new(100, 100));
    layout.handle_draw(&mut painter, Vec2::new(100, 100));
    assert_eq!(layout.is_dirty(LayoutId(2)), Some(false));
    layout.widget_mut(LayoutId(2), |mut w: Panel| {
        w.name = "changed";
        w
    });
    assert_eq!(layout.get_widget(LayoutId(2)).unwrap().name, "changed");
    assert_eq!(layout.is_dirty(LayoutId(2)), Some(true));
    layout.alias_widget(LayoutId(1), "a");
    layout.widget_mut_by_alias("a", |mut w: Panel| {
        w.name = "again";
        w
    });
    assert_eq!(layout.get_widget(LayoutId(1)).unwrap().name, "again");
}

#[test]
fn dirt_spreads_to_descendants_only() {
    let mut layout = small_tree();
    let mut painter = Painter::new(Vec2::new(100, 100));
    layout.handle_draw(&mut painter, Vec2::new(100, 100));
    assert!(!layout.any_widget_dirty());
    layout.widget_mut(LayoutId(1), |w: Panel| w);
    layout.sperate_dirty_widgets();
    assert_eq!(layout.is_dirty(LayoutId(0)), Some(false));
    assert_eq!(layout.is_dirty(LayoutId(1)), Some(true));
    assert_eq!(layout.is_dirty(LayoutId(3)), Some(true));
    assert_eq!(layout.is_dirty(LayoutId(2)), Some(false));
    assert!(layout.any_widget_dirty());
    layout.make_all_dirty();
    assert_eq!(layout.is_dirty(LayoutId(2)), Some(true));
}

fn placed_tree() -> Layout<Panel> {
    let mut layout = Layout::new();
    layout.insert_root_widget(Panel::placing(
        "root",
        vec![(1, Some(Rect::new(10, 10, 50, 50))), (2, Some(Rect::new(80, 80, 50, 50)))],
    ));
    layout.add_widget(
        LayoutId(0),
        Panel::placing("a", vec![(3, Some(Rect::new(40, 40, 30, 30))), (4, None)]),
    );
    layout.add_widget(LayoutId(0), Panel::new("b"));
    layout.add_widget(LayoutId(1), Panel::new("c"));
    layout.add_widget(LayoutId(1), Panel::new("gone"));
    layout.add_widget(LayoutId(2), Panel::new("hidden"));
    layout
}

#[test]
fn children_are_clipped_to_their_parent() {
    let mut layout = placed_tree();
    let mut painter = Painter::new(Vec2::new(100, 100));
    layout.handle_draw(&mut painter, Vec2::new(100, 100));
    let a = layout.get_widget_area(LayoutId(1)).unwrap();
    let b = layout.get_widget_area(LayoutId(2)).unwrap();
    let c = layout.get_widget_area(LayoutId(3)).unwrap();
    assert_eq!(a, Rect::new(10, 10, 50, 50));
    assert_eq!(b, Rect::new(80, 80, 20, 20));
    assert_eq!(c, Rect::new(50, 50, 10, 10));
    assert_eq!(layout.get_widget_pos(LayoutId(3)), Some(Vec2::new(50, 50)));
    assert_eq!(c.intersection(a), c);
    assert_eq!(a.intersection(Rect::window()), a);
    assert_eq!(b.intersection(Rect::new(0, 0, 100, 100)), b);
    assert_eq!(layout.is_window_relative(LayoutId(1)), Some(false));
}

#[test]
fn unanswered_children_are_hidden_and_refused_children_removed() {
    let mut layout = placed_tree();
    let mut painter = Painter::new(Vec2::new(100, 100));
    layout.handle_draw(&mut painter, Vec2::new(100, 100));
    assert!(!layout.contains(LayoutId(4)));
    assert!(layout.contains(LayoutId(5)));
    assert_eq!(layout.get_widget_area(LayoutId(5)), None);
    assert_eq!(layout.get_children_ids(LayoutId(1)).unwrap(), &[LayoutId(3)]);
    assert_eq!(layout.get_widget(LayoutId(0)).unwrap().seen, vec![1, 2]);
    assert_eq!(layout.get_widget(LayoutId(1)).unwrap().seen, vec![3, 4]);
}

#[test]
fn a_rectangle_of_its_own_frees_the_children_of_the_parent() {
    let mut layout = Layout::new();
    layout.insert_root_widget(Panel::placing("root", vec![(1, Some(Rect::new(10, 10, 20, 20)))]));
    layout.add_widget(
        LayoutId(0),
        Panel::placing(
            "floating",
            vec![(1, Some(Rect::new(-10, -10, 500, 500))), (2, Some(Rect::new(30, 0, 40, 40)))],
        ),
    );
    layout.add_widget(LayoutId(1), Panel::new("menu"));
    let mut painter = Painter::new(Vec2::new(100, 100));
    layout.handle_draw(&mut painter, Vec2::new(100, 100));
    let parent = layout.get_widget_area(LayoutId(1)).unwrap();
    let menu = layout.get_widget_area(LayoutId(2)).unwrap();
    assert_eq!(parent, Rect::new(10, 10, 20, 20));
    assert_eq!(menu, Rect::new(40, 10, 40, 40));
    assert_eq!(layout.is_window_relative(LayoutId(1)), Some(true));
    assert_eq!(menu.intersection(Rect::new(0, 0, 100, 100)), menu);
    assert_ne!(menu.intersection(parent), menu);
}

#[test]
fn a_frame_without_dirt_is_skipped() {
    let mut layout = small_tree();
    let mut painter = Painter::new(Vec2::new(100, 100));
    assert!(layout.handle_draw(&mut painter, Vec2::new(100, 100)).is_some());
    let mut painter = Painter::new(Vec2::new(100, 100));
    assert_eq!(layout.handle_draw(&mut painter, Vec2::new(100, 100)), None);
    assert!(painter.shapes.is_empty());
    assert_eq!(layout.handle_paint(&mut painter), None);
}

#[test]
fn one_root_is_drawn_once() {
    let mut layout = Layout::new();
    layout.insert_root_widget(Panel::new("root"));
    let mut painter = Painter::new(Vec2::new(640, 480));
    let first = layout.handle_draw(&mut painter, Vec2::new(640, 480));
    assert_eq!(first, Some(Rect::window()));
    assert_eq!(painter.shapes.len(), 1);
    assert_eq!(painter.shapes[0].clip_rect, Rect::window());
    let mut painter = Painter::new(Vec2::new(640, 480));
    let second = layout.handle_draw(&mut painter, Vec2::new(640, 480));
    assert_eq!(second, None);
    assert!(painter.shapes.is_empty());
}

#[test]
fn paint_unites_the_rectangles_of_dirty_widgets() {
    let mut layout = placed_tree();
    let mut painter = Painter::new(Vec2::new(100, 100));
    layout.handle_draw(&mut painter, Vec2::new(100, 100));
    layout.widget_mut(LayoutId(2), |w: Panel| w);
    layout.widget_mut(LayoutId(3), |w: Panel| w);
    let mut painter = Painter::new(Vec2::new(100, 100));
    let redraw = layout.handle_paint(&mut painter);
    assert_eq!(redraw, Some(Rect::new(50, 50, 50, 50)));
    assert_eq!(painter.shapes.len(), 2);
    assert_eq!(painter.shapes[0].clip_rect, Rect::new(80, 80, 20, 20));
    assert_eq!(painter.shapes[1].clip_rect, Rect::new(50, 50, 10, 10));
    assert!(!layout.any_widget_dirty());
}

#[test]
fn paint_order_is_level_by_level() {
    let mut layout = small_tree();
    layout.add_widget(LayoutId(2), Panel::new("d"));
    assert_eq!(
        layout.paint_order(),
        vec![LayoutId(0), LayoutId(1), LayoutId(2), LayoutId(3), LayoutId(4)]
    );
    layout.add_widget(LayoutId(1), Panel::new("e"));
    assert_eq!(
        layout.paint_order(),
        vec![LayoutId(0), LayoutId(1), LayoutId(2), LayoutId(3), LayoutId(5), LayoutId(4)]
    );
}

#[test]
fn events_reach_visible_widgets_children_first() {
    let mut layout = placed_tree();
    let mut painter = Painter::new(Vec2::new(100, 100));
    layout.handle_draw(&mut painter, Vec2::new(100, 100));
    layout.widget_mut(LayoutId(3), |mut w: Panel| {
        w.wants_redraw = true;
        w
    });
    let mut painter = Painter::new(Vec2::new(100, 100));
    layout.handle_draw(&mut painter, Vec2::new(100, 100));
    let mut input: InputState<()> = InputState::new();
    layout.handle_events(LayoutId(0), &mut input);
    let seen: Vec<usize> = input.signals_to_send.iter().map(|sent| sent.from.0).collect();
    assert_eq!(seen, vec![3, 1, 2, 0]);
    assert_eq!(input.handling_id, LayoutId(0));
    assert_eq!(layout.is_dirty(LayoutId(3)), Some(true));
    assert_eq!(layout.is_dirty(LayoutId(1)), Some(false));
    let mut none: InputState<()> = InputState::new();
    layout.handle_events(LayoutId(9), &mut none);
    assert!(none.signals_to_send.is_empty());
    assert_eq!(none.handling_id, LayoutId(9));
}

#[test]
fn hide_subtree_hides_everything_below() {
    let mut layout = placed_tree();
    let mut painter = Painter::new(Vec2::new(100, 100));
    layout.handle_draw(&mut painter, Vec2::new(100, 100));
    layout.hide_subtree(LayoutId(1));
    assert_eq!(layout.get_widget_area(LayoutId(1)), None);
    assert_eq!(layout.get_widget_area(LayoutId(3)), None);
    assert!(layout.get_widget_area(LayoutId(2)).is_some());
}

#[test]
fn a_child_that_loses_its_answer_is_hidden_with_its_subtree() {
    let mut layout = placed_tree();
    let mut painter = Painter::new(Vec2::new(100, 100));
    layout.handle_draw(&mut painter, Vec2::new(100, 100));
    assert!(layout.get_widget_area(LayoutId(1)).is_some());
    assert!(layout.get_widget_area(LayoutId(3)).is_some());
    layout.widget_mut(LayoutId(0), |mut w: Panel| {
        w.answers = vec![(2, Some(Rect::new(0, 0, 5, 5)))];
        w
    });
    let mut painter = Painter::new(Vec2::new(100, 100));
    layout.handle_draw(&mut painter, Vec2::new(100, 100));
    assert_eq!(layout.get_widget_area(LayoutId(1)), None);
    assert_eq!(layout.get_widget_area(LayoutId(3)), None);
    assert_eq!(layout.get_widget_area(LayoutId(2)), Some(Rect::new(0, 0, 5, 5)));
    assert!(layout.contains(LayoutId(1)));
    assert!(layout.contains(LayoutId(3)));
}

#[test]
fn the_default_layout_is_empty() {
    let layout: Layout<Panel> = Layout::default();
    assert_eq!(layout.widgets(), 0);
    assert_eq!(LayoutId::default(), LayoutId::root());
    assert_eq!(nablo_ui::layout::ROOT_LAYOUT_ID, 0);
}

#[test]
fn a_child_lies_where_its_parent_answered_cut_to_the_clip() {
    let clip = Rect::new(10, 10, 50, 50);
    let (area, pos) = child_placement(Rect::new(5, 5, 100, 20), Vec2::new(10, 10), clip);
    assert_eq!(area, Rect::new(15, 15, 45, 20));
    assert_eq!(pos, Vec2::new(15, 15));
    let (area, pos) = child_placement(Rect::new(-5, -5, 10, 10), Vec2::new(10, 10), clip);
    assert_eq!(area, Rect::new(10, 10, 5, 5));
    assert_eq!(pos, Vec2::new(5, 5));
    let (area, _) = child_placement(Rect::new(100, 0, 10, 10), Vec2::new(10, 10), clip);
    assert!(area.is_empty());
}

#[test]
fn the_children_are_clipped_to_the_answer_of_the_parent_for_itself() {
    let parent_window = Rect::new(10, 10, 50, 50);
    let window = Rect::new(0, 0, 100, 100);
    assert_eq!(children_clip(None, parent_window, Vec2::new(10, 10), window), parent_window);
    assert_eq!(
        children_clip(Some(Rect::new(-20, 0, 200, 30)), parent_window, Vec2::new(10, 10), window),
        Rect::new(0, 10, 100, 30)
    );
}

fn family() -> Layout<Panel> {
    let mut layout = Layout::new();
    layout.insert_root_widget(Panel::new("root"));
    layout.add_widget(LayoutId(0), Panel::placing("a", vec![(4, Some(Rect::new(1, 1, 5, 5))), (6, None)]));
    layout.add_widget(LayoutId(0), Panel::new("b"));
    layout.add_widget(LayoutId(0), Panel::placing("c", vec![(5, Some(Rect::new(0, 0, 9, 9)))]));
    layout.add_widget(LayoutId(1), Panel::new("d"));
    layout.add_widget(LayoutId(3), Panel::new("e"));
    layout.add_widget(LayoutId(1), Panel::new("f"));
    layout
}

#[test]
fn the_children_are_settled_as_the_answers_say() {
    let mut layout = family();
    let mut painter = Painter::new(Vec2::new(100, 100));
    let window = Rect::new(0, 0, 100, 100);
    let mut noted = Vec::new();
    let everyone: HashMap<usize, Option<Rect>> =
        (1..4).map(|id| (id, Some(Rect::new(0, 0, 50, 50)))).collect();
    layout.settle_children(LayoutId(0), window, Vec2::zero(), &everyone, &mut painter, &mut noted);
    assert_eq!(layout.get_widget_area(LayoutId(5)), Some(Rect::new(0, 0, 9, 9)));
    assert_eq!(layout.get_widget_area(LayoutId(2)), Some(Rect::new(0, 0, 50, 50)));
    assert_eq!(layout.is_window_relative(LayoutId(0)), Some(false));
    // What is noted below a child with a rectangle is noted too.
    assert_eq!(noted, vec![LayoutId(6)]);

    let mut noted = vec![LayoutId(77)];
    let answers: HashMap<usize, Option<Rect>> = [
        (0, Some(Rect::new(0, 0, 60, 60))),
        (1, Some(Rect::new(10, 10, 200, 20))),
        (2, None),
    ]
    .into_iter()
    .collect();
    layout.settle_children(LayoutId(0), window, Vec2::zero(), &answers, &mut painter, &mut noted);
    // The root answered for itself: its children are clipped to that rectangle.
    assert_eq!(layout.is_window_relative(LayoutId(0)), Some(true));
    assert_eq!(layout.get_widget_area(LayoutId(1)), Some(Rect::new(10, 10, 50, 20)));
    assert_eq!(layout.get_widget_pos(LayoutId(1)), Some(Vec2::new(10, 10)));
    assert_eq!(layout.get_widget_area(LayoutId(4)), Some(Rect::new(11, 11, 5, 5)));
    // A child whose answer is `None` is noted and hidden, and stays for now.
    assert_eq!(noted, vec![LayoutId(77), LayoutId(6), LayoutId(2)]);
    assert_eq!(layout.get_widget_area(LayoutId(2)), None);
    assert!(layout.contains(LayoutId(2)));
    // A child without an answer is hidden with everything below it.
    assert_eq!(layout.get_widget_area(LayoutId(3)), None);
    assert_eq!(layout.get_widget_area(LayoutId(5)), None);
    assert!(layout.contains(LayoutId(3)) && layout.contains(LayoutId(5)));
    assert_eq!(layout.widgets(), 7);
}

#[test]
fn the_noted_nodes_leave_with_everything_below_them() {
    let mut layout = family();
    layout.remove_noted(&vec![LayoutId(6), LayoutId(3), LayoutId(5), LayoutId(9), LayoutId(6)]);
    assert!(!layout.contains(LayoutId(6)));
    assert!(!layout.contains(LayoutId(3)));
    assert!(!layout.contains(LayoutId(5)));
    for left in [0, 1, 2, 4] {
        assert!(layout.contains(LayoutId(left)));
    }
    assert_eq!(layout.get_children_ids(LayoutId(0)).unwrap(), &[LayoutId(1), LayoutId(2)]);
    assert_eq!(layout.get_children_ids(LayoutId(1)).unwrap(), &[LayoutId(4)]);
    assert_eq!(layout.is_dirty(LayoutId(1)), Some(true));
}

#[test]
fn a_frame_removes_what_the_widgets_answered_none_for() {
    let mut layout = family();
    layout.widget_mut(LayoutId(0), |mut root: Panel| {
        root.answers = vec![(1, Some(Rect::new(0, 0, 50, 50))), (2, None)];
        root
    });
    let mut painter = Painter::new(Vec2::new(100, 100));
    layout.handle_draw(&mut painter, Vec2::new(100, 100));
    // Gone: the child of the root and the grandchild whose answers were `None`.
    assert!(!layout.contains(LayoutId(2)));
    assert!(!layout.contains(LayoutId(6)));
    // Left: the child with a rectangle, and the child without an answer,
    // which is hidden with what lies below it.
    for left in [0, 1, 3, 4, 5] {
        assert!(layout.contains(LayoutId(left)));
    }
    assert_eq!(layout.get_widget_area(LayoutId(3)), None);
    assert_eq!(layout.get_widget_area(LayoutId(5)), None);
    assert_eq!(layout.get_widget_area(LayoutId(4)), Some(Rect::new(1, 1, 5, 5)));
}
