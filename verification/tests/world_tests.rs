use raycaster::dda::Ray;
use raycaster::framebuffer::{Color, Framebuffer};
use raycaster::hud::{health_bar, map_cell_paint};
use raycaster::input::{process_moves, process_turn, Keys};
use raycaster::maze::{
    find_player_start, find_positions_in_maze, get_cell_color, tiles_of, wall_cell_of,
    wall_id_of, Paint,
};
use raycaster::player::{Player, FULL_BATTERY, PI, TAU};
use raycaster::renderer::{
    cast_ray, distance_to, draw_sprite_billboard, fallback_of, is_blocked_by_wall,
    maze_ray_angle, plain_wall, project, ray_count, relative_angle, render_world_3d, stake_rows,
    wall_key, Intersect,
};
use raycaster::texture::{Image, TextureKey, TextureManager};
use raycaster::util::GameState;

fn fixed(v: f64) -> i32 {
    (v * 65536.0).round() as i32
}

fn maze_of(rows: &[&str]) -> Vec<Vec<char>> {
    rows.iter().map(|r| r.chars().collect()).collect()
}

fn checker(width: i32, height: i32) -> Image {
    let mut data = Vec::new();
    for ty in 0..height {
        for tx in 0..width {
            let a = if (tx + ty) % 2 == 0 { 255 } else { 0 };
            data.push(Color::new((tx * 10) as u8, (ty * 10) as u8, 200, a));
        }
    }
    Image { width, height, data }
}

fn plane_for(width: i32, fov: f64) -> i64 {
    ((width as f64 / (2.0 * (fov / 2.0).tan())).abs() * 65536.0) as i64
}

fn no_keys() -> Keys {
    Keys { left: false, right: false, up: false, down: false, w: false, s: false, a: false, d: false }
}

#[test]
fn a_sprite_beyond_the_margin_is_not_drawn() {
    let mut textures = TextureManager::new();
    textures.insert(TextureKey::Enemy, checker(8, 8));
    let mut player = Player::new(fixed(100.0), fixed(100.0));
    player.a = 0;
    let fov = player.fov;
    let bearing = fov / 2 + 65536;
    let distance = 50.0f64;
    let angle = bearing as f64 / 65536.0;
    let sx = fixed(100.0 + distance * angle.cos());
    let sy = fixed(100.0 + distance * angle.sin());
    let mut fb = Framebuffer::new_buffer(320, 200, Color::new(1, 2, 3, 255));
    let before = fb.pixels.clone();
    draw_sprite_billboard(
        &mut fb, sx, sy, &player, bearing, plane_for(320, 1.047), 20, &textures, TextureKey::Enemy,
    );
    assert!(fb.pixels == before);
    draw_sprite_billboard(
        &mut fb, sx, sy, &player, -bearing, plane_for(320, 1.047), 20, &textures,
        TextureKey::Enemy,
    );
    assert!(fb.pixels == before);
    draw_sprite_billboard(
        &mut fb, sx, sy, &player, fov / 2 + 32768 + 1, plane_for(320, 1.047), 20, &textures,
        TextureKey::Enemy,
    );
    assert!(fb.pixels == before);
    draw_sprite_billboard(
        &mut fb, sx, sy, &player, fov / 2 + 32768, plane_for(320, 1.047), 20, &textures,
        TextureKey::Enemy,
    );
    assert!(fb.pixels == before);
    draw_sprite_billboard(
        &mut fb, sx, sy, &player, bearing, plane_for(320, 1.047), 20, &textures, TextureKey::Chest,
    );
    assert!(fb.pixels == before);
    draw_sprite_billboard(
        &mut fb, sx, sy, &player, bearing, i64::MAX, usize::MAX, &textures, TextureKey::Enemy,
    );
    assert!(fb.pixels == before);
    draw_sprite_billboard(
        &mut fb, sx, sy, &player, bearing, i64::MIN, 0, &textures, TextureKey::Enemy,
    );
    assert!(fb.pixels == before);
    assert_eq!(fb.current_color, Color::new(1, 2, 3, 255));
    draw_sprite_billboard(
        &mut fb, sx, sy, &player, 0, plane_for(320, 1.047), 20, &textures, TextureKey::Enemy,
    );
    assert!(fb.pixels != before);
}

#[test]
fn a_sprite_without_an_image_is_a_square_in_the_colour_of_its_key() {
    let textures = TextureManager::new();
    let mut player = Player::new(0, 0);
    player.a = 0;
    player.fov = 65536;
    let back = Color::new(1, 2, 3, 255);
    let plane = 50 * 65536;
    let at = |fb: &Framebuffer, x: usize, y: usize| fb.pixels[y * 100 + x];
    let mut fb = Framebuffer::new_buffer(100, 100, back);
    draw_sprite_billboard(
        &mut fb, fixed(100.0), 0, &player, 0, plane, 20, &textures, TextureKey::Chest,
    );
    let gold = Color::new(127, 101, 0, 255);
    for y in 0..100usize {
        for x in 0..100usize {
            let inside = (44..56).contains(&x) && (44..56).contains(&y);
            assert_eq!(at(&fb, x, y), if inside { gold } else { back }, "at {} {}", x, y);
        }
    }
    assert_eq!(fb.current_color, gold);
    let mut fb = Framebuffer::new_buffer(100, 100, back);
    draw_sprite_billboard(
        &mut fb, fixed(300.0), 0, &player, 0, plane, 20, &textures, TextureKey::Enemy,
    );
    let red = Color::new(57, 10, 13, 255);
    let drawn = fb.pixels.iter().filter(|c| **c == red).count();
    assert_eq!(drawn, 16);
    assert_eq!(at(&fb, 48, 48), red);
    assert_eq!(at(&fb, 51, 51), red);
    assert_eq!(at(&fb, 52, 51), back);
    assert_eq!(fb.pixels.iter().filter(|c| **c != back).count(), 16);
    let keys = [
        (TextureKey::Caja2, Paint::Gray),
        (TextureKey::Caja3, Paint::Brown),
        (TextureKey::Caja4, Paint::Purple),
        (TextureKey::Caja5, Paint::DarkGray),
        (TextureKey::Tuveria1, Paint::DarkGreen),
        (TextureKey::Tuveria2, Paint::DarkGreen),
        (TextureKey::Enemy, Paint::Red),
        (TextureKey::Chest, Paint::Gold),
        (TextureKey::Player, Paint::Blue),
        (TextureKey::Worker, Paint::Purple),
    ];
    for (key, paint) in keys {
        assert_eq!(fallback_of(key), paint);
        let mut fb = Framebuffer::new_buffer(100, 100, back);
        draw_sprite_billboard(&mut fb, 1, 0, &player, 0, plane, 20, &textures, key);
        let flat = paint.color();
        let near = |c: u8| ((c as i64 * 6553600) / (65 + 6553600)) as u8;
        let want = Color::new(near(flat.r), near(flat.g), near(flat.b), 255);
        assert_eq!(at(&fb, 50, 50), want);
        assert_eq!(at(&fb, 0, 0), want);
        assert_eq!(at(&fb, 99, 99), want);
        assert_eq!(fb.current_color, want);
        assert_eq!(fb.pixels.iter().filter(|c| **c != back).count(), 100 * 100);
    }
    let mut fb = Framebuffer::new_buffer(100, 100, back);
    draw_sprite_billboard(
        &mut fb, fixed(100.0), 0, &player, 0, plane, 0, &textures, TextureKey::Chest,
    );
    assert!(fb.pixels.iter().all(|c| *c == back));
    assert_eq!(fb.current_color, back);
}

#[test]
fn a_sprite_ahead_is_centred_and_skips_clear_texels() {
    let mut textures = TextureManager::new();
    textures.insert(TextureKey::Chest, checker(4, 4));
    let mut player = Player::new(0, 0);
    player.a = 0;
    player.fov = 65536;
    let mut fb = Framebuffer::new_buffer(100, 100, Color::new(1, 2, 3, 255));
    let plane = 50 * 65536;
    draw_sprite_billboard(
        &mut fb, fixed(100.0), 0, &player, 0, plane, 20, &textures, TextureKey::Chest,
    );
    let at = |fb: &Framebuffer, x: usize, y: usize| fb.pixels[y * 100 + x];
    let back = Color::new(1, 2, 3, 255);
    assert_eq!(at(&fb, 43, 44), back);
    assert_eq!(at(&fb, 44, 43), back);
    assert_eq!(at(&fb, 44, 44), Color::new(0, 0, 100, 255));
    assert_eq!(at(&fb, 46, 44), Color::new(0, 0, 100, 255));
    assert_eq!(at(&fb, 47, 44), back);
    assert_eq!(at(&fb, 47, 47), Color::new(5, 5, 100, 255));
    assert_eq!(at(&fb, 50, 44), Color::new(10, 0, 100, 255));
    assert_eq!(at(&fb, 55, 55), Color::new(15, 15, 100, 255));
    assert_eq!(at(&fb, 56, 55), back);
    assert_eq!(at(&fb, 55, 56), back);
    assert_eq!(fb.current_color, Color::new(15, 15, 100, 255));
    let drawn = fb.pixels.iter().filter(|c| **c != back).count();
    assert_eq!(drawn, 72);
}

#[test]
fn a_sprite_at_the_camera_is_drawn_without_failing() {
    let mut textures = TextureManager::new();
    textures.insert(TextureKey::Enemy, checker(2, 2));
    let player = Player::new(fixed(5.0), fixed(5.0));
    let mut fb = Framebuffer::new_buffer(64, 48, Color::new(0, 0, 0, 255));
    draw_sprite_billboard(
        &mut fb, fixed(5.0), fixed(5.0), &player, player.a, 40 * 65536, 20, &textures,
        TextureKey::Enemy,
    );
    assert_eq!(fb.pixels.len(), 64 * 48);
    assert_eq!(distance_to(0, 0), 65);
    assert_eq!(distance_to(3 * 65536, 4 * 65536), 5 * 65536);
    assert_eq!(distance_to(-65536, 0), 65536);
    assert_eq!(distance_to(1 << 32, 1 << 32), 6074000999);
}

#[test]
fn angles_wrap_into_half_turns() {
    assert_eq!(relative_angle(0, 0), 0);
    assert_eq!(relative_angle(PI, 0), PI);
    assert_eq!(relative_angle(PI + 1, 0), PI + 1 - TAU);
    assert_eq!(relative_angle(-PI, 0), -PI);
    assert_eq!(relative_angle(-PI - 1, 0), TAU - PI - 1);
    assert_eq!(relative_angle(10, 9 + 5 * TAU), 1);
    assert_eq!(relative_angle(i32::MAX, i32::MIN), (((i32::MAX as i64) - (i32::MIN as i64)) % (TAU as i64)) as i32);
    let p = project(100, 100, 100 * 65536, 0, 65536, 50 * 65536, 20, 4, 4);
    assert_eq!((p.left, p.top, p.cols, p.rows), (44, 44, 12, 12));
    assert_eq!((p.width, p.height, p.dist), (786432, 786432, 6553600));
    let p = project(100, 100, 100 * 65536, 16384, 65536, 50 * 65536, 20, 8, 4);
    assert_eq!((p.left, p.top, p.cols, p.rows), (63, 44, 24, 12));
}

#[test]
fn walls_sky_and_floor_share_each_pair_of_columns() {
    let mut textures = TextureManager::new();
    let mut brick = checker(4, 4);
    for c in brick.data.iter_mut() {
        c.a = 255;
    }
    textures.insert(TextureKey::Caja2, brick);
    let mut fb = Framebuffer::new_buffer(5, 40, Color::new(9, 9, 9, 255));
    let hits = vec![
        Intersect { distance: 40 * 65536, impact: '#', offset: 32768 },
        Intersect { distance: 80 * 65536, impact: 'L', offset: 0 },
        Intersect { distance: 0, impact: 'T', offset: 65535 },
    ];
    render_world_3d(&mut fb, &hits, 20 * 65536, 20, &textures);
    let at = |fb: &Framebuffer, x: usize, y: usize| fb.pixels[y * 5 + x];
    assert_eq!(stake_rows(40, 40 * 65536, 20 * 65536, 20), (15, 25));
    assert_eq!(stake_rows(40, 80 * 65536, 20 * 65536, 20), (17, 22));
    assert_eq!(stake_rows(40, 0, 20 * 65536, 20), (-1980, 2020));
    assert_eq!(at(&fb, 0, 0), Color::new(12, 19, 38, 255));
    assert_eq!(at(&fb, 1, 14), Color::new(12, 19, 38, 255));
    assert_eq!(at(&fb, 0, 15), Color::new(13, 0, 133, 255));
    assert_eq!(at(&fb, 1, 15), Color::new(13, 0, 133, 255));
    assert_eq!(at(&fb, 0, 24), Color::new(13, 20, 133, 255));
    assert_eq!(at(&fb, 0, 25), Color::new(22, 13, 8, 255));
    assert_eq!(at(&fb, 1, 39), Color::new(22, 13, 8, 255));
    assert_eq!(at(&fb, 2, 16), Color::new(9, 14, 28, 255));
    assert_eq!(at(&fb, 2, 17), Color::new(127, 106, 79, 255));
    assert_eq!(at(&fb, 3, 21), Color::new(127, 106, 79, 255));
    assert_eq!(at(&fb, 3, 22), Color::new(15, 9, 5, 255));
    assert_eq!(at(&fb, 4, 0), Color::new(0, 117, 44, 255));
    assert_eq!(at(&fb, 4, 39), Color::new(0, 117, 44, 255));
    assert_eq!(fb.current_color, Color::new(19, 29, 59, 255));
    assert_eq!(wall_key('#'), TextureKey::Caja2);
    assert_eq!(wall_key('L'), TextureKey::Caja3);
    assert_eq!(wall_key('$'), TextureKey::Caja5);
    assert_eq!(wall_key('M'), TextureKey::Caja4);
    assert_eq!(wall_key('T'), TextureKey::Tuveria1);
    assert_eq!(wall_key('P'), TextureKey::Tuveria2);
    assert_eq!(wall_key('x'), TextureKey::Caja2);
    assert_eq!(plain_wall('#'), Paint::Gray);
    assert_eq!(plain_wall('L'), Paint::Brown);
    assert_eq!(plain_wall('$'), Paint::DarkGray);
    assert_eq!(plain_wall('T'), Paint::DarkGreen);
    assert_eq!(plain_wall('P'), Paint::DarkGreen);
    assert_eq!(plain_wall('M'), Paint::Purple);
}

#[test]
fn frames_keep_their_size_and_pen() {
    let mut fb = Framebuffer::new_buffer(3, 2, Color::new(1, 1, 1, 255));
    assert_eq!((fb.width, fb.height, fb.pixels.len()), (3, 2, 6));
    fb.set_current_color(Color::new(5, 6, 7, 8));
    fb.set_pixel(2, 1);
    fb.set_pixel(3, 1);
    fb.set_pixel(-1, 0);
    fb.set_pixel(0, 2);
    assert_eq!(fb.pixels[5], Color::new(5, 6, 7, 8));
    assert_eq!(fb.pixels.iter().filter(|c| **c == Color::new(1, 1, 1, 255)).count(), 5);
    fb.plot(0, 0, Color::new(9, 9, 9, 9));
    assert_eq!(fb.pixels[0], Color::new(9, 9, 9, 9));
    assert_eq!(fb.current_color, Color::new(9, 9, 9, 9));
    fb.plot(7, 7, Color::new(4, 4, 4, 4));
    assert_eq!(fb.current_color, Color::new(4, 4, 4, 4));
    assert_eq!(fb.pixels.iter().filter(|c| **c == Color::new(4, 4, 4, 4)).count(), 0);
    assert_eq!(fb.background_color, Color::new(1, 1, 1, 255));
    let empty = Framebuffer::new_buffer(0, 7, Color::new(0, 0, 0, 0));
    assert_eq!(empty.pixels.len(), 0);
}

#[test]
fn textures_are_kept_under_their_keys() {
    let mut m = TextureManager::new();
    assert!(m.get(TextureKey::Enemy).is_none());
    m.insert(TextureKey::Enemy, checker(2, 3));
    m.insert(TextureKey::Worker, checker(5, 1));
    assert_eq!(m.get(TextureKey::Enemy).map(|i| (i.width, i.height)), Some((2, 3)));
    assert_eq!(m.get(TextureKey::Worker).map(|i| (i.width, i.height)), Some((5, 1)));
    assert!(m.get(TextureKey::Chest).is_none());
    assert!(m.get(TextureKey::Caja2).is_none());
    m.insert(TextureKey::Enemy, checker(7, 7));
    assert_eq!(m.get(TextureKey::Enemy).map(|i| i.width), Some(7));
}

#[test]
fn the_player_starts_on_the_first_start_cell() {
    let maze = maze_of(&["#####", "#  p#", "#P  #", "#####"]);
    assert_eq!(find_player_start(&maze), Some((fixed(70.0), fixed(30.0))));
    let maze = maze_of(&["###", "# #", "###"]);
    assert_eq!(find_player_start(&maze), None);
    let maze = maze_of(&["P"]);
    assert_eq!(find_player_start(&maze), Some((fixed(10.0), fixed(10.0))));
    let maze: Vec<Vec<char>> = Vec::new();
    assert_eq!(find_player_start(&maze), None);
}

#[test]
fn cells_are_found_in_reading_order() {
    let maze = maze_of(&["F#F", "#C#", "F##"]);
    assert_eq!(
        find_positions_in_maze(&maze, 'F', 20),
        vec![
            (fixed(10.0), fixed(10.0)),
            (fixed(50.0), fixed(10.0)),
            (fixed(10.0), fixed(50.0))
        ]
    );
    assert_eq!(find_positions_in_maze(&maze, 'C', 5), vec![(fixed(7.5), fixed(7.5))]);
    assert_eq!(find_positions_in_maze(&maze, 'x', 20), vec![]);
}

#[test]
fn cells_have_their_paint() {
    assert_eq!(get_cell_color('#'), Paint::Gray);
    assert_eq!(get_cell_color('M'), Paint::DarkGray);
    assert_eq!(get_cell_color('L'), Paint::Brown);
    assert_eq!(get_cell_color('$'), Paint::DarkPurple);
    assert_eq!(get_cell_color('T'), Paint::DarkGreen);
    assert_eq!(get_cell_color('P'), Paint::Green);
    assert_eq!(get_cell_color('E'), Paint::Yellow);
    assert_eq!(get_cell_color('p'), Paint::Blue);
    assert_eq!(get_cell_color('F'), Paint::Red);
    assert_eq!(get_cell_color('C'), Paint::Gold);
    assert_eq!(get_cell_color(' '), Paint::Black);
    assert_eq!(Paint::Gray.color(), Color::new(130, 130, 130, 255));
    assert_eq!(Paint::Gold.color(), Color::new(255, 203, 0, 255));
    assert_eq!(Paint::Black.color(), Color::new(0, 0, 0, 255));
    assert!(GameState::Menu != GameState::Playing);
    assert!(GameState::Win == GameState::Win);
}

#[test]
fn the_player_turns_within_a_full_turn() {
    let mut p = Player::new(fixed(30.0), fixed(30.0));
    assert_eq!((p.a, p.fov, p.health, p.max_health), (68629, 68629, 100, 100));
    assert!(p.has_flashlight);
    assert_eq!(p.flashlight_battery, FULL_BATTERY);
    p.rotate(-68629);
    assert_eq!(p.a, 0);
    p.rotate(-1);
    assert_eq!(p.a, -1);
    p.rotate(2);
    assert_eq!(p.a, 1);
    p.rotate(3 * TAU + 5);
    assert_eq!(p.a, 6);
    p.rotate(PI - 6);
    assert_eq!(p.a, PI);
    p.rotate(1);
    assert_eq!(p.a, -PI);
    p.rotate(-1);
    assert_eq!(p.a, PI);
    p.rotate(i32::MAX);
    assert!(p.a >= -PI && p.a <= PI);
    p.rotate(i32::MIN);
    assert!(p.a >= -PI && p.a <= PI);
}

#[test]
fn moves_stop_at_walls_doors_and_the_exit() {
    let maze = maze_of(&["#######", "#  $ E#", "#  #  #", "#######"]);
    let mut p = Player::new(fixed(30.0), fixed(30.0));
    assert!(!p.try_move(fixed(50.0), fixed(30.0), &maze));
    assert_eq!((p.x, p.y), (fixed(50.0), fixed(30.0)));
    assert!(!p.try_move(fixed(50.0), fixed(50.0), &maze));
    assert_eq!((p.x, p.y), (fixed(50.0), fixed(50.0)));
    assert!(!p.try_move(fixed(70.0), fixed(50.0), &maze));
    assert_eq!((p.x, p.y), (fixed(50.0), fixed(50.0)));
    assert!(!p.try_move(fixed(50.0), fixed(-10.0), &maze));
    assert_eq!((p.x, p.y), (fixed(50.0), fixed(50.0)));
    assert!(!p.try_move(fixed(50.0), fixed(30.0), &maze));
    assert!(!p.try_move(fixed(110.0), fixed(30.0), &maze));
    assert_eq!((p.x, p.y), (fixed(60.0), fixed(30.0)));
    assert!(!p.try_move(fixed(118.0), fixed(30.0), &maze));
    assert_eq!((p.x, p.y), (fixed(60.0) + 633514, fixed(30.0)));
    p.x = fixed(60.0);
    assert!(p.try_move(fixed(180.0), fixed(30.0), &maze));
    assert_eq!((p.x, p.y), (fixed(100.0), fixed(30.0)));
    let mut q = Player::new(fixed(30.0), fixed(30.0));
    assert!(!q.try_move(fixed(-30.0), fixed(30.0), &maze));
    assert_eq!((q.x, q.y), (fixed(30.0), fixed(30.0)));
    assert!(!q.try_move(fixed(30.0), fixed(500.0), &maze));
    assert_eq!((q.x, q.y), (fixed(30.0), fixed(30.0)));
    assert!(!q.move_forward(fixed(4.0), Ray { dx: 65536, dy: 0 }, &maze));
    assert_eq!((q.x, q.y), (fixed(34.0), fixed(30.0)));
    assert!(!q.move_backward(fixed(4.0), Ray { dx: 65536, dy: 0 }, &maze));
    assert_eq!((q.x, q.y), (fixed(30.0), fixed(30.0)));
    assert!(!q.move_backward(fixed(12.0), Ray { dx: 65536, dy: 0 }, &maze));
    assert_eq!((q.x, q.y), (fixed(30.0), fixed(30.0)));
}

#[test]
fn health_and_lamp_stay_in_range() {
    let mut p = Player::new(0, 0);
    p.take_damage(30);
    assert_eq!(p.health, 70);
    assert!(p.is_alive());
    p.heal(20);
    assert_eq!(p.health, 90);
    p.heal(20);
    assert_eq!(p.health, 100);
    p.take_damage(250);
    assert_eq!(p.health, 0);
    assert!(!p.is_alive());
    p.use_flashlight(fixed(0.5));
    assert_eq!(p.flashlight_battery, FULL_BATTERY - 5 * 65536);
    p.use_flashlight(fixed(20.0));
    assert_eq!(p.flashlight_battery, 0);
    p.use_flashlight(fixed(1.0));
    assert_eq!(p.flashlight_battery, 0);
    p.recharge_flashlight(fixed(30.0));
    assert_eq!(p.flashlight_battery, fixed(30.0));
    p.recharge_flashlight(fixed(90.0));
    assert_eq!(p.flashlight_battery, FULL_BATTERY);
    p.has_flashlight = false;
    p.use_flashlight(fixed(1.0));
    assert_eq!(p.flashlight_battery, FULL_BATTERY);
}

#[test]
fn keys_turn_and_move_the_player() {
    let maze = maze_of(&["#######", "#     #", "#    E#", "#######"]);
    let mut p = Player::new(fixed(50.0), fixed(30.0));
    p.a = 100;
    let mut keys = no_keys();
    process_turn(&mut p, &keys, 0);
    assert_eq!(p.a, 100);
    keys.left = true;
    process_turn(&mut p, &keys, 0);
    assert_eq!(p.a, 100 - 2621);
    keys.right = true;
    process_turn(&mut p, &keys, fixed(10.0));
    assert_eq!(p.a, 100 - 2621 + 1310);
    let east = Ray { dx: 65536, dy: 0 };
    let mut keys = no_keys();
    assert!(!process_moves(&mut p, &keys, east, &maze));
    assert_eq!((p.x, p.y), (fixed(50.0), fixed(30.0)));
    keys.up = true;
    assert!(!process_moves(&mut p, &keys, east, &maze));
    assert_eq!((p.x, p.y), (fixed(54.0), fixed(30.0)));
    keys.up = false;
    keys.s = true;
    keys.d = true;
    assert!(!process_moves(&mut p, &keys, east, &maze));
    assert_eq!((p.x, p.y), (fixed(50.0), fixed(34.0)));
    keys.s = false;
    keys.d = false;
    keys.a = true;
    assert!(!process_moves(&mut p, &keys, east, &maze));
    assert_eq!((p.x, p.y), (fixed(50.0), fixed(30.0)));
    let mut q = Player::new(fixed(98.0), fixed(50.0));
    let mut keys = no_keys();
    keys.w = true;
    keys.down = true;
    assert!(process_moves(&mut q, &keys, east, &maze));
    assert_eq!((q.x, q.y), (fixed(98.0) + 4 * 43690 - 262144, fixed(50.0)));
}

#[test]
fn the_health_bar_has_its_width_and_colour() {
    assert_eq!(health_bar(100), (200, Paint::Green));
    assert_eq!(health_bar(61), (122, Paint::Green));
    assert_eq!(health_bar(60), (120, Paint::Yellow));
    assert_eq!(health_bar(31), (62, Paint::Yellow));
    assert_eq!(health_bar(30), (60, Paint::Red));
    assert_eq!(health_bar(0), (0, Paint::Red));
    assert_eq!(map_cell_paint('#'), Paint::Gray);
    assert_eq!(map_cell_paint('L'), Paint::Gray);
    assert_eq!(map_cell_paint('$'), Paint::Gray);
    assert_eq!(map_cell_paint('E'), Paint::Green);
    assert_eq!(map_cell_paint('F'), Paint::Red);
    assert_eq!(map_cell_paint('C'), Paint::Gold);
    assert_eq!(map_cell_paint(' '), Paint::DarkGray);
}

#[test]
fn rays_share_the_frame_in_pairs_of_columns() {
    assert_eq!(ray_count(0), 0);
    assert_eq!(ray_count(1), 1);
    assert_eq!(ray_count(5), 3);
    assert_eq!(ray_count(1280), 640);
    assert_eq!(ray_count(i32::MAX), 1073741824);
    assert_eq!(maze_ray_angle(68629, 68629, 0, 640), 68629 - 34314);
    assert_eq!(maze_ray_angle(68629, 68629, 320, 640), 68629);
    assert_eq!(maze_ray_angle(0, 65536, 639, 640), -32768 + 65433);
    assert_eq!(maze_ray_angle(0, -65536, 1, 3), 32768 - 21846);
}

#[test]
fn the_maze_is_cast_through_as_tiles() {
    let maze = maze_of(&["#L$MTP", "# pFCE", "#"]);
    let tiles = tiles_of(&maze);
    assert_eq!((tiles.w, tiles.h), (6, 3));
    assert_eq!(tiles.tiles, vec![1, 2, 3, 4, 5, 6, 1, 0, 0, 0, 0, 0, 1, 1, 1, 1, 1, 1]);
    let empty: Vec<Vec<char>> = Vec::new();
    let none = tiles_of(&empty);
    assert_eq!((none.w, none.h, none.tiles.len()), (0, 0, 0));
    for (cell, id) in [('#', 1u8), ('L', 2), ('$', 3), ('M', 4), ('T', 5), ('P', 6)] {
        assert_eq!(wall_id_of(cell), id);
        assert_eq!(wall_cell_of(id), cell);
    }
    assert_eq!(wall_id_of(' '), 0);
    assert_eq!(wall_id_of('E'), 0);
    assert_eq!(wall_cell_of(0), '#');
    assert_eq!(wall_cell_of(200), '#');
}

#[test]
fn rays_through_the_maze_report_world_units() {
    let maze = maze_of(&["#######", "#     L", "#  #  #", "#######"]);
    let tiles = tiles_of(&maze);
    let player = Player::new(fixed(30.0), fixed(30.0));
    let hit = cast_ray(&tiles, &player, Ray { dx: 65536, dy: 0 }, 20);
    assert_eq!(hit.impact, 'L');
    assert_eq!(hit.distance, fixed(90.0) as i64);
    assert_eq!(hit.offset, 32768);
    let hit = cast_ray(&tiles, &player, Ray { dx: -65536, dy: 0 }, 20);
    assert_eq!((hit.impact, hit.distance), ('#', fixed(10.0) as i64));
    let hit = cast_ray(&tiles, &player, Ray { dx: 0, dy: 65536 }, 20);
    assert_eq!((hit.impact, hit.distance), ('#', fixed(30.0) as i64));
    let far = Player::new(fixed(-500.0), fixed(30.0));
    let hit = cast_ray(&tiles, &far, Ray { dx: 65536, dy: 0 }, 20);
    assert_eq!(hit.impact, '#');
    assert!(hit.distance > 0);
}

#[test]
fn walls_block_the_line_of_sight() {
    let maze = maze_of(&["#######", "#     #", "#  #  #", "#     #", "#######"]);
    let tiles = tiles_of(&maze);
    let player = Player::new(fixed(70.0), fixed(30.0));
    assert!(!is_blocked_by_wall(&tiles, &player, fixed(30.0), fixed(30.0), 20));
    assert!(!is_blocked_by_wall(&tiles, &player, fixed(110.0), fixed(30.0), 20));
    assert!(is_blocked_by_wall(&tiles, &player, fixed(70.0), fixed(70.0), 20));
    assert!(is_blocked_by_wall(&tiles, &player, fixed(110.0), fixed(70.0), 20));
    assert!(!is_blocked_by_wall(&tiles, &player, fixed(110.0), fixed(50.0), 20));
    assert!(!is_blocked_by_wall(&tiles, &player, fixed(70.0), fixed(30.0), 20));
    assert!(is_blocked_by_wall(&tiles, &player, fixed(70.0), fixed(300.0), 20));
    assert!(is_blocked_by_wall(&tiles, &player, fixed(-70.0), fixed(30.0), 20));
    let low = Player::new(fixed(30.0), fixed(70.0));
    assert!(!is_blocked_by_wall(&tiles, &low, fixed(50.0), fixed(30.0), 20));
    assert!(is_blocked_by_wall(&tiles, &low, fixed(110.0), fixed(50.0), 20));
}
