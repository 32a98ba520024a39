use hewn::Wire;

struct Ctx {
    name: String,
    seed: u32,
}

struct Greeting {
    who: String,
}

impl Wire<Ctx> for Greeting {
    fn wire(ctx: &Ctx) -> Self {
        Greeting { who: ctx.name.clone() }
    }
}

#[derive(PartialEq, Debug)]
struct Worker {
    id: u32,
}

impl Wire<Ctx> for Worker {
    fn wire(ctx: &Ctx) -> Self {
        Worker { id: ctx.seed }
    }
}

/// What `#[derive(Wire)]` writes for `struct Pool { workers: [Worker; 3] }`.
struct Pool {
    workers: [Worker; 3],
}

impl<__Ctx> hewn::Wire<__Ctx> for Pool
where
    [Worker; 3]: hewn::Wire<__Ctx>,
{
    fn wire(__ctx: &__Ctx) -> Self {
        Self { workers: <[Worker; 3] as hewn::Wire<__Ctx>>::wire(__ctx) }
    }
}

fn ctx(seed: u32) -> Ctx {
    Ctx { name: "world".to_string(), seed }
}

#[test]
fn leaf_wires_from_context() {
    let g = Greeting::wire(&ctx(0));
    assert_eq!(g.who, "world");
}

#[test]
fn array_wires_each_element() {
    let direct: [Worker; 3] = Wire::wire(&ctx(7));
    assert_eq!(direct, [Worker { id: 7 }, Worker { id: 7 }, Worker { id: 7 }]);
    let pool = Pool::wire(&ctx(9));
    assert_eq!(pool.workers, [Worker { id: 9 }, Worker { id: 9 }, Worker { id: 9 }]);
}

#[test]
fn empty_array_wires() {
    let none: [Worker; 0] = Wire::wire(&ctx(1));
    assert!(none.is_empty());
}
