use chithi::fs::{Fs, Role};

#[test]
fn simple_user_hosts() {
    let Fs {
        host,
        fs,
        role: _,
        origin: _,
    } = Fs::new(None, "user@host:pool", Role::Source);
    assert_eq!(host.as_deref(), Some("user@host"));
    assert_eq!(fs, "pool");
    let Fs {
        host,
        fs,
        role: _,
        origin: _,
    } = Fs::new(None, "user@host:pool/filesystem", Role::Source);
    assert_eq!(host.as_deref(), Some("user@host"));
    assert_eq!(fs, "pool/filesystem");
}

#[test]
fn simple_hosts_without_users() {
    let Fs {
        host,
        fs,
        role: _,
        origin: _,
    } = Fs::new(None, "host:pool", Role::Source);
    assert_eq!(host.as_deref(), Some("host"));
    assert_eq!(fs, "pool");
    let Fs {
        host,
        fs,
        role: _,
        origin: _,
    } = Fs::new(None, "host:pool/filesystem", Role::Source);
    assert_eq!(host.as_deref(), Some("host"));
    assert_eq!(fs, "pool/filesystem");
    let Fs {
        host,
        fs,
        role: _,
        origin: _,
    } = Fs::new(None, "host:pool/filesystem:alsofs", Role::Source);
    assert_eq!(host.as_deref(), Some("host"));
    assert_eq!(fs, "pool/filesystem:alsofs");
}

#[test]
fn simple_user_hosts_pool_fs_colon() {
    let Fs {
        host,
        fs,
        role: _,
        origin: _,
    } = Fs::new(None, "user@host:pool:alsopool", Role::Source);
    assert_eq!(host.as_deref(), Some("user@host"));
    assert_eq!(fs, "pool:alsopool");
    let Fs {
        host,
        fs,
        role: _,
        origin: _,
    } = Fs::new(
        None,
        "user@host:pool:alsopool/filesystem:alsofs",
        Role::Source,
    );
    assert_eq!(host.as_deref(), Some("user@host"));
    assert_eq!(fs, "pool:alsopool/filesystem:alsofs");
}

#[test]
fn empty_user_hosts() {
    let Fs {
        host,
        fs,
        role: _,
        origin: _,
    } = Fs::new(Some(""), "pool", Role::Source);
    assert_eq!(host, None);
    assert_eq!(fs, "pool");
    let Fs {
        host,
        fs,
        role: _,
        origin: _,
    } = Fs::new(Some(""), "pool/filesystem", Role::Source);
    assert_eq!(host, None);
    assert_eq!(fs, "pool/filesystem");
}

#[test]
fn empty_user_hosts_pool_fs_colon() {
    let Fs {
        host,
        fs,
        role: _,
        origin: _,
    } = Fs::new(Some(""), "poolnothost:alsopool", Role::Source);
    assert_eq!(host, None);
    assert_eq!(fs, "poolnothost:alsopool");
    let Fs {
        host,
        fs,
        role: _,
        origin: _,
    } = Fs::new(
        Some(""),
        "poolnothost:alsopool/filesystem:alsofs",
        Role::Source,
    );
    assert_eq!(host, None);
    assert_eq!(fs, "poolnothost:alsopool/filesystem:alsofs");
}

#[test]
fn nonempty_user_hosts_pool_fs_colon() {
    let Fs {
        host,
        fs,
        role: _,
        origin: _,
    } = Fs::new(Some("user@host"), "poolnothost:alsopool", Role::Source);
    assert_eq!(host.as_deref(), Some("user@host"));
    assert_eq!(fs, "poolnothost:alsopool");
    let Fs {
        host,
        fs,
        role: _,
        origin: _,
    } = Fs::new(
        Some("user@host"),
        "poolnothost:alsopool/filesystem:alsofs",
        Role::Source,
    );
    assert_eq!(host.as_deref(), Some("user@host"));
    assert_eq!(fs, "poolnothost:alsopool/filesystem:alsofs");
    let Fs {
        host,
        fs,
        role: _,
        origin: _,
    } = Fs::new(
        Some("user:wierduser@host:wierdhost"),
        "poolnothost:alsopool/filesystem:alsofs",
        Role::Source,
    );
    assert_eq!(host.as_deref(), Some("user:wierduser@host:wierdhost"));
    assert_eq!(fs, "poolnothost:alsopool/filesystem:alsofs");
}

fn appears_before_in(x: usize, y: usize, sorted: &[usize]) {
    let x_idx = sorted.iter().position(|&idx| idx == x).unwrap();
    let y_idx = sorted.iter().position(|&idx| idx == y).unwrap();
    assert!(x_idx < y_idx, "x:{x}:{x_idx} y:{y}:{y_idx}");
}

#[test]
fn simple_linear() {
    let parent = Fs::new(None, "parent", Role::Target);
    let parent_copy = Fs::new(None, "parent", Role::Target);
    let child = Fs::new(None, "parent/child", Role::Target);
    let grand_child = Fs::new(None, "parent/child/grand_child", Role::Target);
    let unsorted = vec![grand_child, child, parent_copy];
    let (sorted, exists) = parent.topological_sort(&unsorted);
    assert!(exists.is_empty());
    assert_eq!(sorted, vec![2, 1, 0]);
}

#[test]
fn simple_linear_2() {
    let parent = Fs::new(None, "parent", Role::Target);
    let parent_copy = Fs::new(None, "parent", Role::Target);
    let child = Fs::new(None, "parent/child", Role::Target);
    let grand_child = Fs::new(None, "parent/child/grand_child", Role::Target);
    let unsorted = vec![parent_copy, child, grand_child];
    let (sorted, exists) = parent.topological_sort(&unsorted);
    assert!(exists.is_empty());
    assert_eq!(sorted, vec![0, 1, 2]);
}

#[test]
fn simple_cloned() {
    let parent = Fs::new(None, "parent", Role::Target);
    let parent_copy = Fs::new(None, "parent", Role::Target);
    let child = Fs::new(None, "parent/child", Role::Target);
    let mut cloned = Fs::new(None, "parent/cloned", Role::Target);
    cloned.origin = Some("parent/child@snap".to_string());
    let grand_child = Fs::new(None, "parent/child/grand_child", Role::Target);
    let unsorted = vec![parent_copy, cloned, child, grand_child];
    let (sorted, exists) = parent.topological_sort(&unsorted);
    assert!(exists.is_empty());
    assert!(sorted == vec![0, 2, 1, 3] || sorted == vec![0, 2, 3, 1]);
}

#[test]
fn clone_in_sibling() {
    let parent = Fs::new(None, "parent", Role::Target);
    let parent_copy = Fs::new(None, "parent", Role::Target);
    let child_1 = Fs::new(None, "parent/child1", Role::Target);
    let mut clone = Fs::new(None, "parent/child1/clone", Role::Target);
    clone.origin = Some("parent/child2@snap".to_string());
    let child_2 = Fs::new(None, "parent/child2", Role::Target);
    let unsorted = vec![parent_copy, child_1, clone, child_2];
    let (sorted, exists) = parent.topological_sort(&unsorted);
    assert!(exists.is_empty());
    assert!(sorted == vec![0, 1, 3, 2] || sorted == vec![0, 3, 1, 2]);
}

#[test]
fn example_from_syncoid_pr_572() {
    let test_pool = Fs::new(None, "testpool1", Role::Target);
    let mut a = Fs::new(None, "testpool1/A", Role::Target);
    a.origin = Some("testpool1/B@b".to_string());
    let a_d = Fs::new(None, "testpool1/A/D", Role::Target);
    let mut b = Fs::new(None, "testpool1/B", Role::Target);
    b.origin = Some("testpool1/C@a".to_string());
    let c = Fs::new(None, "testpool1/C", Role::Target);
    let unsorted = vec![test_pool, a, b, c, a_d];
    let (sorted, exists) = unsorted[0].topological_sort(&unsorted);
    assert!(exists.is_empty());
    for i in 1..unsorted.len() {
        appears_before_in(0, i, &sorted);
    }
    // A/D
    appears_before_in(1, 4, &sorted);
    // a.origin
    appears_before_in(2, 1, &sorted);
    // b.origin
    appears_before_in(3, 2, &sorted);
}
