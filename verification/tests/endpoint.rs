use mosec::endpoint::Endpoint;

#[test]
fn path_gives_back_what_new_took() {
    let e = Endpoint::new("/infer/image");
    assert_eq!(e.path(), "/infer/image");
}

#[test]
fn socket_name_of_nested_route() {
    let e = Endpoint::new("/infer/image");
    assert_eq!(e.standardize_to_socket(1), "ipc_infer+image_1.socket");
}

#[test]
fn socket_name_trims_every_outer_slash() {
    let e = Endpoint::new("//math//next//");
    assert_eq!(e.standardize_to_socket(12), "ipc_math++next_12.socket");
}

#[test]
fn socket_name_of_root_route() {
    let e = Endpoint::new("/");
    assert_eq!(e.standardize_to_socket(3), "ipc__3.socket");
}

#[test]
fn socket_name_of_route_without_slashes() {
    let e = Endpoint::new("ping");
    assert_eq!(e.standardize_to_socket(0), "ipc_ping_0.socket");
}

#[test]
fn socket_name_keeps_other_characters() {
    let e = Endpoint::new("/a_b-c.d/é");
    assert_eq!(e.standardize_to_socket(10), "ipc_a_b-c.d+é_10.socket");
}

#[test]
fn socket_names_of_stages_are_distinct_and_flat() {
    let e = Endpoint::new("/inference");
    let names: Vec<String> = (1..=12).map(|i| e.standardize_to_socket(i)).collect();
    for (i, a) in names.iter().enumerate() {
        assert!(!a.contains('/'));
        for b in names.iter().skip(i + 1) {
            assert_ne!(a, b);
        }
    }
}

#[test]
fn socket_name_of_largest_stage() {
    let e = Endpoint::new("/x");
    assert_eq!(
        e.standardize_to_socket(usize::MAX),
        format!("ipc_x_{}.socket", usize::MAX)
    );
}

#[test]
fn outer_slashes_do_not_change_socket_names() {
    for p in ["infer/image", "/infer/image", "//infer/image/", "///"] {
        let plain = Endpoint::new(p).standardize_to_socket(4);
        let trimmed = Endpoint::new(p.trim_matches('/')).standardize_to_socket(4);
        let wrapped = Endpoint::new(&format!("/{}/", p)).standardize_to_socket(4);
        assert_eq!(plain, trimmed);
        assert_eq!(plain, wrapped);
    }
}

#[test]
fn endpoint_parses_clones_and_compares() {
    let e: Endpoint = "/ping".parse().unwrap();
    assert_eq!(e.clone(), Endpoint::new("/ping"));
    assert_ne!(e, Endpoint::new("/pong"));
    assert_eq!(format!("{:?}", e), "Endpoint(\"/ping\")");
}
