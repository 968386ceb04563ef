use tileworld::controls::EventType;
use tileworld::fps::FpsCounter;
use tileworld::neighbor::NeighborMatrix;
use tileworld::neighbor::NeighborType;
use tileworld::neighbor::NeighborType::{Air, Same, Transitional};
use tileworld::sprite::NeighborImageLocation;
use tileworld::tick::{TickHandler, Tickable};
use tileworld::tile::Tile;
use tileworld::registry::{TileId, TILE_DIRT};
use tileworld::util::{CallbackResponse, Direction};
use tileworld::world::PlayerId;

#[test]
fn direction_turns() {
    for d in Direction::iter() {
        assert!(d.flip().flip() == d);
        assert!(d.clockwise().counter_clockwise() == d);
        assert!(d.clockwise().clockwise() == d.flip());
        assert_eq!(d.flip().get_x_difference(), -d.get_x_difference());
        assert_eq!(d.is_vertical(), !d.is_horizontal());
    }
    assert!(Direction::Top.clockwise() == Direction::Right);
    assert!(Direction::Top.counter_clockwise() == Direction::Left);
    assert_eq!(Direction::Top.get_y_difference(), 1);
    assert_eq!(Direction::Down.get_y_difference(), -1);
    assert_eq!(Direction::Right.get_x_border(), 23);
    assert_eq!(Direction::Left.get_x_border(), 0);
    assert_eq!(Direction::Top.get_y_border(), 23);
    assert_eq!(Direction::Down.get_y_border(), 0);
}

#[test]
fn tile_constructors() {
    let t = Tile::id(TileId { id: TILE_DIRT });
    assert_eq!(t.get_id().id, TILE_DIRT);
    assert_eq!(t.variance, 0);
    assert_eq!(t.matrix, NeighborMatrix::new());
    assert_eq!(Tile::air().get_id().id, 0);
}

fn tile_with(top: NeighborType, down: NeighborType, left: NeighborType, right: NeighborType) -> Tile {
    let mut t = Tile::id(TileId { id: TILE_DIRT });
    t.matrix.set_neighbor_type(Direction::Top, top);
    t.matrix.set_neighbor_type(Direction::Down, down);
    t.matrix.set_neighbor_type(Direction::Left, left);
    t.matrix.set_neighbor_type(Direction::Right, right);
    t
}

#[test]
fn sprite_location_from_matrix() {
    assert_eq!(NeighborImageLocation::from(&tile_with(Same, Same, Same, Same)), NeighborImageLocation::Full);
    assert_eq!(NeighborImageLocation::from(&tile_with(Air, Air, Air, Air)), NeighborImageLocation::Standalone);
    assert_eq!(NeighborImageLocation::from(&tile_with(Air, Same, Air, Same)), NeighborImageLocation::TopLeftCorner);
    assert_eq!(NeighborImageLocation::from(&tile_with(Same, Air, Same, Air)), NeighborImageLocation::DownRightCorner);
    assert_eq!(NeighborImageLocation::from(&tile_with(Air, Air, Same, Air)), NeighborImageLocation::RightCap);
    assert_eq!(NeighborImageLocation::from(&tile_with(Transitional, Air, Air, Air)), NeighborImageLocation::Full);
    assert_eq!(NeighborImageLocation::TopLeftCorner.get_tile_pos(), (3, 1));
    assert_eq!(NeighborImageLocation::RightCap.get_tile_pos(), (1, 4));
    assert_eq!(NeighborImageLocation::Full.get_tile_pos(), (0, 0));
}

#[test]
fn event_types() {
    let mut toggle = EventType::new_toggle(false);
    toggle.press();
    assert_eq!(toggle, EventType::Toggle { state: true });
    toggle.release();
    assert_eq!(toggle, EventType::Toggle { state: true });
    let mut request = EventType::new_request();
    request.press();
    request.press();
    assert_eq!(request, EventType::Request { requests: 2 });
    request.finish();
    assert_eq!(request, EventType::Request { requests: 0 });
    let mut held = EventType::new_persistent();
    held.press();
    assert_eq!(held, EventType::Persistent { pressed: true });
    held.release();
    assert_eq!(held, EventType::Persistent { pressed: false });
}

#[test]
fn fps_counter_reports_after_a_second() {
    let mut fps = FpsCounter::new();
    assert_eq!(fps.tick(10), None);
    assert_eq!(fps.tick(500), None);
    assert_eq!(fps.tick(1001), Some(3));
    assert_eq!(fps.frames, 0);
}

struct Countdown {
    left: std::cell::Cell<u32>,
}

impl Tickable for Countdown {
    fn continues(&self) -> bool {
        self.left.get() > 0
    }

    fn tick(&self) -> CallbackResponse {
        if self.left.get() == 0 {
            CallbackResponse::Stop
        } else {
            self.left.set(self.left.get() - 1);
            CallbackResponse::Continue
        }
    }
}

#[test]
fn tick_handler_drops_finished() {
    let mut handler = TickHandler::new();
    handler.add_tickable(Countdown { left: std::cell::Cell::new(0) });
    handler.add_tickable(Countdown { left: std::cell::Cell::new(2) });
    handler.add_tickable(Countdown { left: std::cell::Cell::new(1) });
    handler.tick();
    assert_eq!(handler.data.len(), 2);
    assert_eq!(handler.data[0].left.get(), 1);
    handler.tick();
    assert_eq!(handler.data.len(), 1);
    handler.tick();
    assert!(handler.data.is_empty());
}

#[test]
fn player_id_default() {
    assert_eq!(PlayerId::default().id, usize::MAX);
}

