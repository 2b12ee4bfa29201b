use pgraph::Id;
use pgraph::IdGen;

#[test]
fn test_next_gen() {
    let mut a = IdGen::new();
    let a_gen = a.generation();
    let b = a.clone();

    assert_eq!(a_gen, a.generation());
    assert!(a.generation() < b.generation());

    a.next_gen();
    assert!(a_gen < a.generation());
}

#[test]
fn test_gen_of_ids() {
    let a = IdGen::new();
    let a_first = a.create_id(1);

    let mut b = a.clone();
    b.next_gen();
    let b_first = b.create_id(1);

    let mut c = b.clone();
    c.next_gen();
    let c_first = c.create_id(1);

    assert_same_index(&a_first, &b_first);
    assert_same_index(&b_first, &c_first);

    println!(
        "Generators and ids:\n\ta = {} -> {:?}, \tb = {} -> {:?}, \tc = {} -> {:?}",
        a.generation(),
        a_first,
        b.generation(),
        c_first,
        c.generation(),
        c_first
    );

    let a1 = a.create_id(1);
    let b1 = b.create_id(1);
    let c1 = c.create_id(1);

    assert_eq!(a1.generation(), a.generation());
    assert_eq!(b1.generation(), b.generation());
    assert_eq!(c1.generation(), c.generation());

    assert!(a1.generation() < b1.generation());
    assert!(b1.generation() < c1.generation());
}

#[test]
fn sibling_generations_stay_distinct() {
    let mut a = IdGen::new();
    let mut b = a.clone();

    // Two diverged sources draw from the same shared counter, so however they
    // interleave their advances, they never stamp the same generation.
    a.next_gen();
    b.next_gen();
    assert_ne!(a.generation(), b.generation());

    a.next_gen();
    a.next_gen();
    b.next_gen();
    assert_ne!(a.generation(), b.generation());

    let a1 = a.create_id(0);
    let b1 = b.create_id(0);
    assert_ne!(a1, b1);
}

fn assert_same_index(id1: &Id, id2: &Id) {
    let a: usize = id1.get_index();
    let b: usize = id2.get_index();

    assert_eq!(a, b);
}
