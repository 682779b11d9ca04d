use nbody_ring::proc::Exchange;
use nbody_ring::proc::Motion;
use nbody_ring::proc::Proc;
use nbody_ring::star::Particle;
use nbody_ring::star::Vec3;

fn v3(x: f32, y: f32, z: f32) -> Vec3 {
    Vec3(x.to_bits(), y.to_bits(), z.to_bits())
}

fn body(tag: f32) -> Particle {
    Particle {
        pos: v3(tag, 0.0, 0.0),
        vel: v3(0.0, tag, 0.0),
        mass: tag.to_bits(),
        radius: 1.0f32.to_bits(),
        new_vel: Vec3::zeros(),
    }
}

#[test]
fn new_process_holds_its_block_twice() {
    let stars = vec![body(1.0), body(2.0)];
    let p = Proc::new(stars.clone(), 1, 4);
    assert_eq!(p.stars, stars);
    assert_eq!(p.stars_buff, stars);
    assert_eq!(p.rank, 1);
    assert_eq!(p.next_rank, 2);
    assert_eq!(p.previous_rank, 0);
    assert_eq!(p.iteration, 0);
}

#[test]
fn neighbours_wrap_around() {
    let first = Proc::new(vec![body(1.0)], 0, 4);
    assert_eq!((first.previous_rank, first.next_rank), (3, 1));
    let last = Proc::new(vec![body(1.0)], 3, 4);
    assert_eq!((last.previous_rank, last.next_rank), (2, 0));
    let of_two = Proc::new(vec![body(1.0)], 1, 2);
    assert_eq!((of_two.previous_rank, of_two.next_rank), (0, 0));
    let alone = Proc::new(vec![body(1.0)], 0, 1);
    assert_eq!((alone.previous_rank, alone.next_rank), (0, 0));
    let huge = Proc::new(vec![body(1.0)], i32::MAX - 1, i32::MAX);
    assert_eq!((huge.previous_rank, huge.next_rank), (i32::MAX - 2, 0));
}

#[test]
fn step_names_the_exchange() {
    let mut p = Proc::new(vec![body(1.0)], 2, 3);
    assert_eq!(p.step().unwrap(), Exchange::Ring { to: 0, from: 1 });
    assert_eq!(p.iteration, 1);
    let mut alone = Proc::new(vec![body(1.0)], 0, 1);
    assert_eq!(alone.step().unwrap(), Exchange::Local);
    assert_eq!(alone.iteration, 1);
}

#[test]
fn step_changes_nothing_but_the_count() {
    let stars = vec![body(1.0), body(2.0)];
    let mut p = Proc::new(stars.clone(), 0, 2);
    p.step().unwrap();
    p.step().unwrap();
    assert_eq!(p.iteration, 2);
    assert_eq!(p.stars, stars);
    assert_eq!(p.stars_buff, stars);
    assert_eq!((p.rank, p.next_rank, p.previous_rank), (0, 1, 1));
}

#[test]
fn step_fails_on_an_empty_block() {
    let mut p = Proc::new(Vec::new(), 0, 2);
    let e = p.step().unwrap_err();
    assert_eq!(e.message(), "Empty initial state");
    assert_eq!(e.to_string(), "Runtime error: Empty initial state");
    assert_eq!(p.iteration, 1);
    assert!(p.stars.is_empty());
    assert!(p.stars_buff.is_empty());
}

#[test]
fn step_fails_when_the_block_that_came_is_empty() {
    let mut p = Proc::new(vec![body(1.0)], 0, 2);
    p.step().unwrap();
    p.complete_step(&vec![Vec3::zeros()], Vec::new());
    assert!(p.step().is_err());
    assert_eq!(p.stars, vec![body(1.0)]);
    assert_eq!(p.iteration, 2);
}

#[test]
fn complete_step_in_a_ring_takes_what_came() {
    let mine = vec![body(1.0), body(2.0)];
    let theirs = vec![body(3.0)];
    let mut p = Proc::new(mine.clone(), 0, 2);
    p.step().unwrap();
    let gathered = vec![v3(1.0, 2.0, 3.0), v3(4.0, 5.0, 6.0)];
    p.complete_step(&gathered, theirs.clone());
    assert_eq!(p.stars_buff, theirs);
    assert_eq!(
        p.stars,
        vec![
            Particle { new_vel: gathered[0], ..mine[0] },
            Particle { new_vel: gathered[1], ..mine[1] },
        ]
    );
    assert_eq!(p.iteration, 1);
    assert_eq!((p.rank, p.next_rank, p.previous_rank), (0, 1, 1));
}

#[test]
fn complete_step_alone_recycles_the_residents() {
    let mine = vec![body(1.0), body(2.0)];
    let mut p = Proc::new(mine.clone(), 0, 1);
    assert_eq!(p.step().unwrap(), Exchange::Local);
    let gathered = vec![v3(1.0, 2.0, 3.0), v3(4.0, 5.0, 6.0)];
    p.complete_step(&gathered, vec![body(99.0)]);
    assert_eq!(p.stars_buff, p.stars);
    assert_eq!(p.stars_buff.len(), 2);
    for k in 0..2 {
        assert_eq!(p.stars_buff[k], Particle { new_vel: gathered[k], ..mine[k] });
    }
}

#[test]
fn round_alone_that_gathers_nothing_gives_the_residents_back() {
    let mine = vec![body(1.0), body(2.0)];
    let mut p = Proc::new(mine.clone(), 0, 1);
    p.step().unwrap();
    p.complete_step(&vec![Vec3::zeros(), Vec3::zeros()], Vec::new());
    assert_eq!(p.stars_buff, mine);
    assert_eq!(p.stars, mine);
}

#[test]
fn complete_step_without_residents() {
    let mut p = Proc::new(Vec::new(), 1, 2);
    p.complete_step(&Vec::new(), vec![body(5.0)]);
    assert!(p.stars.is_empty());
    assert_eq!(p.stars_buff, vec![body(5.0)]);
    assert_eq!(p.step().unwrap(), Exchange::Ring { to: 0, from: 0 });
}

#[test]
fn complete_interation_moves_and_resets() {
    let mine = vec![body(1.0), body(2.0)];
    let mut p = Proc::new(mine.clone(), 1, 3);
    p.step().unwrap();
    p.complete_step(&vec![v3(1.0, 1.0, 1.0), v3(2.0, 2.0, 2.0)], vec![body(7.0)]);
    let moved = vec![
        Motion { pos: v3(10.0, 11.0, 12.0), vel: v3(13.0, 14.0, 15.0) },
        Motion { pos: v3(20.0, 21.0, 22.0), vel: v3(23.0, 24.0, 25.0) },
    ];
    p.complete_interation(&moved);
    for k in 0..2 {
        assert_eq!(p.stars[k].pos, moved[k].pos);
        assert_eq!(p.stars[k].vel, moved[k].vel);
        assert_eq!(p.stars[k].mass, mine[k].mass);
        assert_eq!(p.stars[k].radius, mine[k].radius);
        assert_eq!(p.stars[k].new_vel, Vec3::zeros());
    }
    assert_eq!(p.stars_buff, p.stars);
    assert_eq!(p.iteration, 1);
    assert_eq!((p.rank, p.next_rank, p.previous_rank), (1, 2, 0));
}

#[test]
fn deal_gives_each_rank_its_block() {
    let all: Vec<Particle> = (0..10).map(|i| body(i as f32)).collect();
    let blocks = [0..4, 4..7, 7..10];
    for rank in 0..3 {
        let p = Proc::deal(&all, rank, 3);
        assert_eq!(p.stars, all[blocks[rank as usize].clone()].to_vec());
        assert_eq!(p.stars_buff, p.stars);
        assert_eq!(p.rank, rank);
        assert_eq!(p.next_rank, (rank + 1) % 3);
        assert_eq!(p.previous_rank, (rank + 2) % 3);
        assert_eq!(p.iteration, 0);
    }
    assert!(Proc::deal(&Vec::new(), 0, 1).stars.is_empty());
    assert!(Proc::deal(&all, 11, 12).stars.is_empty());
}
