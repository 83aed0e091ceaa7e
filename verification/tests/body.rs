use slime::frame::Frame;
use slime::lattice::lattice;
use slime::slime::{cell_color, share, Bond, Share, Slime, SlimeCell};
use slime::spatial_grid::TileBox;
use slime::vector::Vector2D;

const X_HASH: usize = 6287364878;
const Y_HASH: usize = 2731859790;

fn at(x: f32, y: f32) -> Vector2D<f32> {
    Vector2D::new(x, y)
}

fn tiles(x0: usize, y0: usize, x1: usize, y1: usize) -> TileBox {
    TileBox { lo: Vector2D::new(x0, y0), hi: Vector2D::new(x1, y1) }
}

fn bonded(positions: &[(f32, f32)], bonds: &[(usize, usize, f32)]) -> Slime<f32> {
    let positions: Vec<Vector2D<f32>> = positions.iter().map(|p| at(p.0, p.1)).collect();
    let bonds: Vec<Bond<f32>> =
        bonds.iter().map(|b| Bond { first: b.0, second: b.1, rest_length: b.2 }).collect();
    Slime::new(
        Vector2D::new(80, 60),
        Vector2D::new(X_HASH, Y_HASH),
        at(50.0, 50.0),
        &positions,
        at(0.0, 0.0),
        5.0,
        &bonds,
        12.5,
    )
}

fn body(positions: &[(f32, f32)]) -> Slime<f32> {
    bonded(positions, &[])
}

fn links_of(body: &Slime<f32>, index: usize) -> Vec<(usize, f32)> {
    body.cell(index).unwrap().links().iter().map(|l| (l.neighbor, l.rest_length)).collect()
}

fn place(body: &Slime<f32>, index: usize) -> (f32, f32) {
    let p = body.cell(index).unwrap().position();
    (p.x, p.y)
}

#[test]
fn new_cell_is_free_and_unlinked() {
    let cell = SlimeCell::new(at(1.0, 2.0), at(3.0, 4.0), 5.0f32);
    assert_eq!((cell.position().x, cell.position().y), (1.0, 2.0));
    assert_eq!((cell.velocity().x, cell.velocity().y), (3.0, 4.0));
    assert_eq!(cell.radius(), 5.0);
    assert!(!cell.pinned());
    assert!(cell.links().is_empty());
}

#[test]
fn with_fix_holds_the_cell_and_keeps_the_rest() {
    let cell = SlimeCell::new(at(1.0, 2.0), at(3.0, 4.0), 5.0f32).with_fix();
    assert!(cell.pinned());
    assert_eq!((cell.position().x, cell.position().y), (1.0, 2.0));
    assert_eq!((cell.velocity().x, cell.velocity().y), (3.0, 4.0));
    assert_eq!(cell.radius(), 5.0);
}

#[test]
fn new_body_has_one_free_cell_at_each_position() {
    let body = body(&[(10.0, 10.0), (20.0, 10.0), (10.0, 20.0)]);
    assert_eq!(body.len(), 3);
    assert_eq!(body.pinch(), None);
    assert_eq!(body.target_radius(), 12.5);
    assert_eq!(body.stamp(), 0);
    assert_eq!(place(&body, 1), (20.0, 10.0));
    for i in 0..3 {
        let cell = body.cell(i).unwrap();
        assert!(!cell.pinned());
        assert_eq!(cell.radius(), 5.0);
        assert_eq!((cell.velocity().x, cell.velocity().y), (0.0, 0.0));
        assert!(cell.links().is_empty());
    }
    assert_eq!(body.query(tiles(0, 0, 100, 100)), Vec::<usize>::new());
}

#[test]
fn valid_cell_is_an_index_below_the_length() {
    let body = body(&[(10.0, 10.0), (20.0, 10.0)]);
    assert!(body.valid_cell(0));
    assert!(body.valid_cell(1));
    assert!(!body.valid_cell(2));
    assert!(!body.valid_cell(usize::MAX));
    assert!(body.cell(2).is_none());
}

#[test]
fn get_two_cell_wants_two_different_cells() {
    let body = body(&[(10.0, 10.0), (20.0, 10.0), (30.0, 10.0)]);
    let (a, b) = body.get_two_cell(2, 0).unwrap();
    assert_eq!(a.position().x, 30.0);
    assert_eq!(b.position().x, 10.0);
    assert!(body.get_two_cell(1, 1).is_none());
    assert!(body.get_two_cell(0, 3).is_none());
    assert!(body.get_two_cell(3, 0).is_none());
}

#[test]
fn link_leads_to_a_cell_of_higher_index() {
    let body = bonded(
        &[(10.0, 10.0), (20.0, 10.0), (30.0, 10.0)],
        &[
            (0, 1, 10.0),
            (2, 1, 99.0),
            (0, 2, 20.0),
            (1, 1, 99.0),
            (1, 2, 10.0),
            (1, 3, 99.0),
            (3, 4, 99.0),
        ],
    );
    assert_eq!(links_of(&body, 0), vec![(1, 10.0), (2, 20.0)]);
    assert_eq!(links_of(&body, 1), vec![(2, 10.0)]);
    assert_eq!(links_of(&body, 2), vec![]);
    assert_eq!(place(&body, 0), (10.0, 10.0));
    assert!(!body.cell(0).unwrap().pinned());
}

#[test]
fn displace_moves_a_free_cell() {
    let mut body = body(&[(10.0, 10.0), (20.0, 10.0)]);
    body.displace(1, at(21.0, 11.0));
    assert_eq!(place(&body, 1), (21.0, 11.0));
    assert_eq!(place(&body, 0), (10.0, 10.0));
    body.displace(2, at(0.0, 0.0));
    assert_eq!(body.len(), 2);
}

#[test]
fn integrate_gives_a_free_cell_velocity_and_place() {
    let mut body = body(&[(10.0, 10.0), (20.0, 10.0)]);
    body.integrate(0, at(1.0, -1.0), at(11.0, 9.0));
    let cell = body.cell(0).unwrap();
    assert_eq!((cell.velocity().x, cell.velocity().y), (1.0, -1.0));
    assert_eq!((cell.position().x, cell.position().y), (11.0, 9.0));
}

#[test]
fn held_cell_stays_through_a_tick() {
    let mut body = body(&[(10.0, 10.0), (20.0, 10.0), (30.0, 10.0)]);
    body.handle_input(true, at(19.0, 10.0), &vec![1]);
    assert_eq!(body.pinch(), Some(1));
    for dt in [0.0f32, 1.0 / 60.0, 1.0, 1.0e9, f32::INFINITY] {
        body.integrate(1, at(dt, dt), at(20.0 + dt, 10.0 + dt));
        body.displace(1, at(dt, -dt));
        body.integrate(0, at(dt, dt), at(1.0, 2.0));
        body.repopulate(&vec![tiles(0, 0, 1, 1), tiles(1, 0, 2, 1), tiles(2, 0, 3, 1)]);
        let cell = body.cell(1).unwrap();
        assert!(cell.pinned());
        assert_eq!((cell.position().x, cell.position().y), (20.0, 10.0));
        assert_eq!((cell.velocity().x, cell.velocity().y), (0.0, 0.0));
        assert_eq!(place(&body, 0), (1.0, 2.0));
    }
}

#[test]
fn pointer_holds_the_first_hit_that_is_a_cell() {
    let mut body = body(&[(10.0, 10.0), (20.0, 10.0), (30.0, 10.0)]);
    body.handle_input(true, at(0.0, 0.0), &vec![7, 2, 1]);
    assert_eq!(body.pinch(), Some(2));
    assert!(body.cell(2).unwrap().pinned());
    assert!(!body.cell(1).unwrap().pinned());
    assert!(!body.cell(0).unwrap().pinned());
    assert_eq!(place(&body, 2), (30.0, 10.0));
}

#[test]
fn pointer_without_a_hit_holds_nothing() {
    let mut body = body(&[(10.0, 10.0), (20.0, 10.0)]);
    body.handle_input(true, at(0.0, 0.0), &vec![]);
    assert_eq!(body.pinch(), None);
    body.handle_input(true, at(0.0, 0.0), &vec![2, 9]);
    assert_eq!(body.pinch(), None);
    body.handle_input(false, at(0.0, 0.0), &vec![0]);
    assert_eq!(body.pinch(), None);
    assert!(!body.cell(0).unwrap().pinned());
}

#[test]
fn held_cell_follows_the_pointer_and_is_let_go() {
    let mut body = body(&[(10.0, 10.0), (20.0, 10.0)]);
    body.handle_input(true, at(11.0, 11.0), &vec![0]);
    assert_eq!(place(&body, 0), (10.0, 10.0));
    body.handle_input(true, at(40.0, 41.0), &vec![1]);
    assert_eq!(body.pinch(), Some(0));
    assert_eq!(place(&body, 0), (40.0, 41.0));
    assert!(!body.cell(1).unwrap().pinned());
    body.handle_input(false, at(0.0, 0.0), &vec![1]);
    assert_eq!(body.pinch(), None);
    assert!(!body.cell(0).unwrap().pinned());
    assert_eq!(place(&body, 0), (40.0, 41.0));
    body.displace(0, at(1.0, 1.0));
    assert_eq!(place(&body, 0), (1.0, 1.0));
}

#[test]
fn anchor_is_the_held_cell_or_the_body_s_own() {
    let mut body = body(&[(10.0, 10.0), (20.0, 10.0)]);
    assert_eq!((body.anchor().x, body.anchor().y), (50.0, 50.0));
    body.handle_input(true, at(0.0, 0.0), &vec![1]);
    assert_eq!((body.anchor().x, body.anchor().y), (20.0, 10.0));
    body.handle_input(true, at(3.0, 4.0), &vec![]);
    assert_eq!((body.anchor().x, body.anchor().y), (3.0, 4.0));
    body.handle_input(false, at(0.0, 0.0), &vec![]);
    assert_eq!((body.anchor().x, body.anchor().y), (50.0, 50.0));
}

#[test]
fn repopulate_inserts_each_cell_under_its_index() {
    let mut body = body(&[(10.0, 10.0), (20.0, 10.0), (30.0, 10.0)]);
    let areas = vec![tiles(1, 1, 3, 3), tiles(2, 1, 4, 3), tiles(6, 1, 8, 3)];
    body.repopulate(&areas);
    assert_eq!(body.stamp(), 1);
    assert_eq!(body.query(tiles(1, 1, 2, 2)), vec![0]);
    assert_eq!(body.query(tiles(2, 1, 3, 2)), vec![0, 1]);
    assert_eq!(body.query(tiles(3, 1, 4, 2)), vec![1]);
    assert_eq!(body.query(tiles(6, 2, 7, 3)), vec![2]);
    assert_eq!(body.query(tiles(4, 1, 6, 3)), Vec::<usize>::new());
    body.repopulate(&vec![tiles(6, 1, 8, 3)]);
    assert_eq!(body.stamp(), 2);
    assert_eq!(body.query(tiles(0, 0, 10, 10)), vec![0]);
    body.repopulate(&vec![tiles(0, 0, 1, 1); 5]);
    assert_eq!(body.query(tiles(0, 0, 1, 1)), vec![0, 1, 2]);
}

#[test]
fn candidates_are_the_cells_of_higher_index() {
    let mut body = body(&[(10.0, 10.0), (20.0, 10.0), (30.0, 10.0), (40.0, 10.0)]);
    let all = tiles(0, 0, 2, 2);
    body.repopulate(&vec![all, all, all, all]);
    assert_eq!(body.query(all), vec![0, 1, 2, 3]);
    assert_eq!(body.candidates(0, all), vec![1, 2, 3]);
    assert_eq!(body.candidates(1, all), vec![2, 3]);
    assert_eq!(body.candidates(3, all), Vec::<usize>::new());
    assert_eq!(body.candidates(2, tiles(5, 5, 6, 6)), Vec::<usize>::new());
}

#[test]
fn cell_is_drawn_red_when_held_and_green_when_free() {
    assert_eq!(cell_color(true), 0xff0000);
    assert_eq!(cell_color(false), 0x00ff00);
    let mut body = body(&[(1.0, 1.0), (2.0, 0.0), (9.0, 9.0), (0.0, 2.0)]);
    body.handle_input(true, at(0.0, 0.0), &vec![1]);
    let mut frame = Frame::new(4, 3);
    let pixels = vec![
        Some(Vector2D::new(1usize, 1usize)),
        Some(Vector2D::new(2, 0)),
        Some(Vector2D::new(9, 9)),
        None,
    ];
    body.draw(&mut frame, &pixels);
    let mut expected = vec![0u32; 12];
    expected[1 * 4 + 1] = 0x00ff00;
    expected[2] = 0xff0000;
    assert_eq!(frame.buffer, expected);
}

#[test]
fn later_cell_is_drawn_over_an_earlier_one() {
    let mut body = body(&[(1.0, 1.0), (1.0, 1.0)]);
    body.handle_input(true, at(0.0, 0.0), &vec![1]);
    let mut frame = Frame::new(2, 2);
    let pixel = Some(Vector2D::new(1usize, 1usize));
    body.draw(&mut frame, &vec![pixel, pixel]);
    assert_eq!(frame.buffer, vec![0, 0, 0, 0xff0000]);
    let mut frame = Frame::new(2, 2);
    body.draw(&mut frame, &vec![pixel]);
    assert_eq!(frame.buffer, vec![0, 0, 0, 0x00ff00]);
}

#[test]
fn lattice_goes_row_after_row_and_leaves_out_one_point() {
    let points = lattice(Vector2D::new(1, 5), Vector2D::new(4, 7), Vector2D::new(2, 5), 100);
    let points: Vec<(usize, usize)> = points.iter().map(|p| (p.x, p.y)).collect();
    assert_eq!(points, vec![(1, 5), (3, 5), (1, 6), (2, 6), (3, 6)]);
}

#[test]
fn lattice_stops_at_the_limit() {
    let of = |limit: usize| -> Vec<(usize, usize)> {
        lattice(Vector2D::new(0, 0), Vector2D::new(3, 3), Vector2D::new(1, 1), limit)
            .iter()
            .map(|p| (p.x, p.y))
            .collect()
    };
    assert_eq!(of(0), vec![]);
    assert_eq!(of(4), vec![(0, 0), (1, 0), (2, 0), (0, 1)]);
    assert_eq!(of(5), vec![(0, 0), (1, 0), (2, 0), (0, 1), (2, 1)]);
    assert_eq!(of(8).len(), 8);
    assert_eq!(of(9).len(), 8);
}

#[test]
fn lattice_of_a_box_without_points_is_empty() {
    assert!(lattice(Vector2D::new(3, 0), Vector2D::new(3, 9), Vector2D::new(0, 0), 10).is_empty());
    assert!(lattice(Vector2D::new(0, 4), Vector2D::new(9, 4), Vector2D::new(0, 0), 10).is_empty());
    assert!(lattice(Vector2D::new(5, 5), Vector2D::new(1, 1), Vector2D::new(0, 0), 10).is_empty());
}

#[test]
fn held_cell_does_not_give_way() {
    assert_eq!(share(false, false), Share::Both);
    assert_eq!(share(false, true), Share::First);
    assert_eq!(share(true, false), Share::Second);
    assert_eq!(share(true, true), Share::Neither);
}

fn distance(a: Vector2D<f32>, b: Vector2D<f32>) -> f32 {
    let d = a.delta(b);
    (d.x * d.x + d.y * d.y).sqrt()
}

fn mean_radius(body: &Slime<f32>) -> (Vector2D<f32>, f32) {
    let n = body.len() as f32;
    let mut sum = at(0.0, 0.0);
    for i in 0..body.len() {
        sum = sum.add(body.cell(i).unwrap().position());
    }
    let centre = sum.vdiv(n);
    let mut total = 0.0;
    for i in 0..body.len() {
        total += distance(centre, body.cell(i).unwrap().position());
    }
    (centre, total / n)
}

fn relax(body: &mut Slime<f32>, stiffness: f32) {
    for i in 0..body.len() {
        let links: Vec<(usize, f32)> =
            body.cell(i).unwrap().links().iter().map(|l| (l.neighbor, l.rest_length)).collect();
        for (j, rest) in links {
            let (a, b) = body.get_two_cell(i, j).unwrap();
            let (pa, pb) = (a.position(), b.position());
            let delta = pa.delta(pb);
            let length = distance(pa, pb);
            if length == 0.0 {
                continue;
            }
            let correction = delta.vmul(0.5 * (length - rest) / length);
            body.displace(i, pa.add(correction));
            body.displace(j, pb.sub(correction));
        }
    }
    let (centre, radius) = mean_radius(body);
    let compression = body.target_radius() - radius;
    for i in 0..body.len() {
        let p = body.cell(i).unwrap().position();
        let out = centre.delta(p);
        let length = distance(centre, p);
        if length == 0.0 {
            continue;
        }
        body.displace(i, p.add(out.vmul(compression * stiffness / length)));
    }
}

fn three_by_three() -> Slime<f32> {
    let mut positions: Vec<Vector2D<f32>> = Vec::new();
    for p in lattice(Vector2D::new(0, 0), Vector2D::new(3, 3), Vector2D::new(9, 9), 9) {
        positions.push(at(200.0 + 40.0 * p.x as f32, 300.0 + 40.0 * p.y as f32));
    }
    let rigidity = 1.0;
    let mut bonds: Vec<Bond<f32>> = Vec::new();
    for i in 0..positions.len() {
        for j in i + 1..positions.len() {
            let rest_length = distance(positions[i], positions[j]);
            if rest_length <= 2.0 * 20.0 * rigidity {
                bonds.push(Bond { first: i, second: j, rest_length });
            }
        }
    }
    let centre = positions.iter().fold(at(0.0, 0.0), |sum, p| sum.add(*p)).vdiv(9.0);
    let radius = positions.iter().map(|p| distance(centre, *p)).sum::<f32>() / 9.0;
    Slime::new(
        Vector2D::new(800, 600),
        Vector2D::new(X_HASH, Y_HASH),
        at(240.0, 340.0),
        &positions,
        at(0.0, 0.0),
        20.0,
        &bonds,
        radius,
    )
}

#[test]
fn body_at_rest_stays_at_rest_through_one_tick() {
    let mut body = three_by_three();
    let links: usize = (0..9).map(|i| body.cell(i).unwrap().links().len()).sum();
    assert_eq!(links, 12);
    let before: Vec<Vector2D<f32>> = (0..9).map(|i| body.cell(i).unwrap().position()).collect();
    let (dt, damping, stiffness) = (1.0f32 / 60.0, 0.95f32, 0.2f32);
    for i in 0..9 {
        let cell = body.cell(i).unwrap();
        let speed = cell.velocity().vmul(damping);
        let to = cell.position().add(speed.vmul(dt));
        body.integrate(i, speed, to);
    }
    let areas: Vec<TileBox> = (0..9)
        .map(|i| {
            let p = body.cell(i).unwrap().position();
            let tile = |n: f32| (n / 20.0).floor() as usize;
            TileBox {
                lo: Vector2D::new(tile(p.x - 20.0), tile(p.y - 20.0)),
                hi: Vector2D::new(tile(p.x + 20.0), tile(p.y + 20.0)),
            }
        })
        .collect();
    body.repopulate(&areas);
    for _ in 0..10 {
        relax(&mut body, stiffness);
    }
    let step = 1000.0 * dt * damping * dt;
    for i in 0..9 {
        assert!(distance(before[i], body.cell(i).unwrap().position()) <= step);
        for l in body.cell(i).unwrap().links() {
            let now = distance(
                body.cell(i).unwrap().position(),
                body.cell(l.neighbor).unwrap().position(),
            );
            assert!((now - l.rest_length).abs() <= stiffness * l.rest_length);
        }
    }
    assert_eq!(body.query(areas[4]), vec![4]);
    let mut all = body.query(tiles(9, 14, 15, 20));
    all.sort();
    assert_eq!(all, vec![0, 1, 2, 3, 4, 5, 6, 7, 8]);
}

#[test]
fn stretched_link_draws_its_cells_together() {
    let mut body = bonded(&[(0.0, 0.0), (30.0, 0.0)], &[(0, 1, 10.0)]);
    let mut last = 30.0f32;
    for _ in 0..8 {
        let (a, b) = body.get_two_cell(0, 1).unwrap();
        let (pa, pb) = (a.position(), b.position());
        let length = distance(pa, pb);
        let correction = pa.delta(pb).vmul(0.5 * 0.2 * (length - 10.0) / length);
        body.displace(0, pa.add(correction));
        body.displace(1, pb.sub(correction));
        let now = distance(body.cell(0).unwrap().position(), body.cell(1).unwrap().position());
        assert!((now - 10.0).abs() < (last - 10.0).abs());
        last = now;
    }
}

#[test]
fn link_to_a_held_cell_moves_the_free_end_only() {
    let mut body = bonded(&[(0.0, 0.0), (30.0, 0.0)], &[(0, 1, 10.0)]);
    body.handle_input(true, at(0.0, 0.0), &vec![0]);
    let (pa, pb) = (body.cell(0).unwrap().position(), body.cell(1).unwrap().position());
    let rest = links_of(&body, 0)[0].1;
    let correction = pa.delta(pb).vmul(0.5 * (30.0 - rest) / 30.0);
    body.displace(0, pa.add(correction));
    body.displace(1, pb.sub(correction));
    assert_eq!(place(&body, 0), (0.0, 0.0));
    assert_eq!(place(&body, 1), (20.0, 0.0));
}

#[test]
fn compressed_disc_grows_back_towards_its_radius() {
    let centre = at(100.0, 100.0);
    let mut positions: Vec<Vector2D<f32>> = Vec::new();
    for p in lattice(Vector2D::new(95, 95), Vector2D::new(106, 106), Vector2D::new(0, 0), 1000) {
        let p = at(p.x as f32, p.y as f32);
        if distance(centre, p) <= 5.0 {
            positions.push(p);
        }
    }
    assert_eq!(positions.len(), 81);
    let probe = Slime::new(
        Vector2D::new(80, 60),
        Vector2D::new(X_HASH, Y_HASH),
        centre,
        &positions,
        at(0.0, 0.0),
        0.5,
        &vec![],
        0.0,
    );
    let (_, target) = mean_radius(&probe);
    for squeeze in [0.5f32, 2.0] {
        let squeezed: Vec<Vector2D<f32>> =
            positions.iter().map(|p| centre.add(centre.delta(*p).vmul(squeeze))).collect();
        let mut body = Slime::new(
            Vector2D::new(80, 60),
            Vector2D::new(X_HASH, Y_HASH),
            centre,
            &squeezed,
            at(0.0, 0.0),
            0.5,
            &vec![],
            target,
        );
        let (_, before) = mean_radius(&body);
        relax(&mut body, 0.2);
        let (_, after) = mean_radius(&body);
        assert!((after - target).abs() < (before - target).abs());
        assert_eq!(after > target, before > target);
    }
}

#[test]
fn links_stay_as_they_were_made() {
    let mut body = bonded(
        &[(0.0, 0.0), (10.0, 0.0), (20.0, 0.0)],
        &[(0, 1, 10.0), (1, 2, 10.0), (0, 2, 20.0)],
    );
    let before: Vec<Vec<(usize, f32)>> = (0..3).map(|i| links_of(&body, i)).collect();
    assert_eq!(before, vec![vec![(1, 10.0), (2, 20.0)], vec![(2, 10.0)], vec![]]);
    body.handle_input(true, at(1.0, 1.0), &vec![1]);
    body.handle_input(true, at(5.0, 5.0), &vec![]);
    body.integrate(0, at(1.0, 1.0), at(2.0, 2.0));
    body.displace(2, at(9.0, 9.0));
    body.repopulate(&vec![tiles(0, 0, 1, 1); 3]);
    body.handle_input(false, at(0.0, 0.0), &vec![]);
    let after: Vec<Vec<(usize, f32)>> = (0..3).map(|i| links_of(&body, i)).collect();
    assert_eq!(after, before);
}
