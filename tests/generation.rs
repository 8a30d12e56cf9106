use protogen::calculator::{AddRequest, CalculatorService};
use protogen::delims::is_balanced;
use protogen::includes::{generate_includes, package_of_file_name, packages_of_files};
use protogen::rerun::rerun_directives;
use protogen::resolve::resolve_type_path;
use protogen::snake::{naive_snake_case, snake_case_with_flags};
use protogen::split::split_package;
use protogen::tree::PackageTree;
use protogen::wrapper::{append_wrapper, wrapper_source, MethodDescriptor, ServiceDescriptor};

fn strings(v: &[&str]) -> Vec<String> {
    v.iter().map(|s| s.to_string()).collect()
}

fn method(name: &str, input: &str, input_proto: &str, output: &str, output_proto: &str) -> MethodDescriptor {
    MethodDescriptor {
        name: name.to_string(),
        input_type: input.to_string(),
        input_proto_type: input_proto.to_string(),
        output_type: output.to_string(),
        output_proto_type: output_proto.to_string(),
    }
}

fn greeter() -> ServiceDescriptor {
    ServiceDescriptor {
        name: "Greeter".to_string(),
        methods: vec![method(
            "say_hello",
            "HelloRequest",
            ".helloworld.HelloRequest",
            "HelloReply",
            ".helloworld.HelloReply",
        )],
    }
}

#[test]
fn snake_case_inserts_separators() {
    assert_eq!(naive_snake_case("OrderService"), "order_service");
    assert_eq!(naive_snake_case("Greeter"), "greeter");
    assert_eq!(naive_snake_case("HTTPServer"), "h_t_t_p_server");
    assert_eq!(naive_snake_case(""), "");
}

#[test]
fn well_known_type_stays_unqualified_when_not_compiled() {
    assert_eq!(
        resolve_type_path(".google.protobuf.Timestamp", "Timestamp", "super", false),
        "Timestamp"
    );
    assert_eq!(
        resolve_type_path(".google.protobuf.Timestamp", "Timestamp", "super", true),
        "super::Timestamp"
    );
}

#[test]
fn cross_package_type_is_qualified() {
    assert_eq!(
        resolve_type_path(".shop.orders.Order", "orders::Order", "super", true),
        "super::orders::Order"
    );
}

#[test]
fn literal_and_absolute_types_pass_through() {
    assert_eq!(resolve_type_path(".google.protobuf.Empty", "()", "super", true), "()");
    assert_eq!(
        resolve_type_path(".google.protobuf.Any", "::prost_types::Any", "super", true),
        "::prost_types::Any"
    );
    assert_eq!(
        resolve_type_path(".a.B", "crate::a::B", "super", true),
        "crate::a::B"
    );
}

#[test]
fn greeter_wrapper_forwards_say_hello() {
    let code = wrapper_source(&greeter());
    assert!(code.starts_with("pub mod greeter_wrapper {\n"));
    assert!(code.contains("pub struct GreeterWrapper<T>\n"));
    assert!(code.contains("T: ::std::ops::Deref<Target = dyn super::greeter_server::Greeter>,\n"));
    assert!(code.contains("T: Sync,\n"));
    assert!(code.contains("T: Send,\n"));
    assert!(code.contains("T: 'static,\n"));
    assert!(code.contains("impl<T> super::greeter_server::Greeter for GreeterWrapper<T>\n"));
    assert!(code.contains(
        "        async fn say_hello(\n            &self,\n            request: tonic::Request<super::HelloRequest>,\n        ) -> std::result::Result<tonic::Response<super::HelloReply>, tonic::Status> {\n            self.inner.say_hello(request).await\n        }\n"
    ));
    assert!(code.ends_with("    }\n}\n"));
    assert!(is_balanced(&code));
}

#[test]
fn wrapper_has_one_forwarding_method_per_rpc() {
    let svc = ServiceDescriptor {
        name: "OrderService".to_string(),
        methods: vec![
            method("place", "PlaceRequest", ".shop.PlaceRequest", "()", ".google.protobuf.Empty"),
            method("cancel", "CancelRequest", ".shop.CancelRequest", "CancelReply", ".shop.CancelReply"),
        ],
    };
    let code = wrapper_source(&svc);
    assert!(code.starts_with("pub mod order_service_wrapper {\n"));
    assert_eq!(code.matches("async fn ").count(), 2);
    assert!(code.contains("tonic::Request<super::PlaceRequest>"));
    assert!(code.contains("tonic::Response<()>"));
    assert!(code.contains("tonic::Response<super::CancelReply>"));
    let place = code.find("async fn place(").unwrap();
    let cancel = code.find("async fn cancel(").unwrap();
    assert!(place < cancel);
}

#[test]
fn append_wrapper_keeps_existing_text() {
    let mut buf = String::from("// types\n");
    assert!(append_wrapper(&greeter(), &mut buf).is_ok());
    assert!(buf.starts_with("// types\npub mod greeter_wrapper {"));
    assert_eq!(buf.len(), "// types\n".len() + wrapper_source(&greeter()).len());
}

#[test]
fn malformed_wrapper_is_rejected() {
    let svc = ServiceDescriptor { name: "Bad{".to_string(), methods: vec![] };
    let mut buf = String::from("x");
    let r = append_wrapper(&svc, &mut buf);
    match r {
        Err(e) => assert_eq!(e.service, "Bad{"),
        Ok(()) => panic!("expected an error"),
    }
    assert_eq!(buf, "x");
}

#[test]
fn delimiter_check() {
    assert!(is_balanced("{ ( [ ] ) }"));
    assert!(is_balanced(""));
    assert!(!is_balanced("{ ( } )"));
    assert!(!is_balanced("("));
    assert!(!is_balanced(")"));
}

#[test]
fn split_on_dots() {
    assert_eq!(split_package("a.b.c"), strings(&["a", "b", "c"]));
    assert_eq!(split_package("single"), strings(&["single"]));
    assert_eq!(split_package(""), strings(&[""]));
}

#[test]
fn output_file_names() {
    assert_eq!(package_of_file_name("a.b.rs"), Some("a.b".to_string()));
    assert_eq!(package_of_file_name("_.rs"), Some("_".to_string()));
    assert_eq!(package_of_file_name("__.rs"), None);
    assert_eq!(package_of_file_name("proto_descriptor.bin"), None);
    assert_eq!(package_of_file_name(".rs"), None);
    assert_eq!(
        packages_of_files(&strings(&["x.rs", "__.rs", "y.bin", "p.q.rs"])),
        strings(&["x", "p.q"])
    );
}

#[test]
fn shared_prefix_shares_nodes() {
    let t = PackageTree::from_names(&strings(&["a.b", "a.c", "a.b.d"]));
    // root, a, b, c, d
    assert_eq!(t.nodes.len(), 5);
    assert_eq!(t.nodes[0].children.len(), 1);
    let a = t.nodes[0].children[0];
    assert_eq!(t.nodes[a].name, "a");
    assert_eq!(t.nodes[a].file_name, None);
    assert_eq!(t.nodes[a].children.len(), 2);
    let b = t.nodes[a].children[0];
    assert_eq!(t.nodes[b].file_name, Some("a.b".to_string()));
    let d = t.nodes[b].children[0];
    assert_eq!(t.nodes[d].name, "d");
    assert_eq!(t.nodes[d].file_name, Some("a.b.d".to_string()));
}

#[test]
fn root_package_attaches_to_root() {
    let t = PackageTree::from_names(&strings(&["_"]));
    assert_eq!(t.nodes.len(), 1);
    assert_eq!(t.nodes[0].file_name, Some("_".to_string()));
    assert!(t.nodes[0].children.is_empty());
}

#[test]
fn includes_text_nests_packages() {
    let text = generate_includes(&strings(&["d", "a.c", "_", "a.b"]));
    assert_eq!(
        text,
        "tonic::include_proto!(\"_\");\npub mod a {\npub mod b {\ntonic::include_proto!(\"a.b\");\n}\npub mod c {\ntonic::include_proto!(\"a.c\");\n}\n}\npub mod d {\ntonic::include_proto!(\"d\");\n}\n"
    );
    assert!(is_balanced(&text));
}

#[test]
fn includes_text_is_stable() {
    let a = generate_includes(&strings(&["x.y", "calculator", "x.z", "_"]));
    let b = generate_includes(&strings(&["_", "x.z", "calculator", "x.y"]));
    let c = generate_includes(&strings(&["x.y", "calculator", "x.z", "_"]));
    assert_eq!(a, b);
    assert_eq!(a, c);
}

#[test]
fn empty_output_gives_empty_includes() {
    assert_eq!(generate_includes(&Vec::new()), "");
}

#[test]
fn rerun_on_declared_inputs_only() {
    let r = rerun_directives(
        &strings(&["proto/calculator.proto"]),
        &strings(&["src/main/proto"]),
        true,
    );
    assert_eq!(
        r,
        strings(&[
            "cargo:rerun-if-changed=proto/calculator.proto",
            "cargo:rerun-if-changed=src/main/proto"
        ])
    );
    assert!(!r.iter().any(|d| d.ends_with("=README.md")));
    assert!(rerun_directives(&strings(&["a.proto"]), &strings(&["inc"]), false).is_empty());
}

#[test]
fn calculator_adds() {
    let s = CalculatorService::default();
    let r = s.add(AddRequest { a: 2, b: Some(3) });
    assert_eq!(r.result, 5);
    assert_eq!(r.b, Some(3));
    assert!(r.message.is_none());
    let r = s.add(AddRequest { a: -7, b: None });
    assert_eq!(r.result, -7);
    assert_eq!(r.b, None);
}

#[test]
fn snake_case_follows_given_flags() {
    assert_eq!(snake_case_with_flags("AbCd", &vec![true, false, true, false]), "ab_cd");
    assert_eq!(snake_case_with_flags("AbCd", &vec![false, true, false, true]), "a_bc_d");
    assert_eq!(snake_case_with_flags("ÀB", &vec![true, true]), "À_b");
}
