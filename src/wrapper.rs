//! Generation of a forwarding wrapper for each compiled service.
//!
//! The wrapper holds any shareable handle that dereferences to the service's
//! interface and implements the same interface by forwarding each call.
use vstd::prelude::*;
use vstd::string::*;
use crate::delims::{balanced, is_balanced};
use crate::resolve::{resolve_type_path, resolved_type};
use crate::snake::{naive_snake_case, snake_case};

verus! {

/// One RPC method: its name and its request and response types, each as the
/// protocol type name and the generated type name.
pub struct MethodDescriptor {
    pub name: String,
    pub input_type: String,
    pub input_proto_type: String,
    pub output_type: String,
    pub output_proto_type: String,
}

/// A compiled service: its name and its methods in declaration order.
pub struct ServiceDescriptor {
    pub name: String,
    pub methods: Vec<MethodDescriptor>,
}

/// The generated wrapper code of a service did not pass the structural check.
pub struct MalformedWrapper {
    pub service: String,
}

/// The module that holds the wrapper of service `name`.
pub open spec fn wrapper_module(name: Seq<char>) -> Seq<char> {
    snake_case(name) + "_wrapper"@
}

/// The module in which the service's interface is generated.
pub open spec fn server_module(name: Seq<char>) -> Seq<char> {
    snake_case(name) + "_server"@
}

pub open spec fn wrapper_type(name: Seq<char>) -> Seq<char> {
    name + "Wrapper"@
}

/// The interface's path as seen from the wrapper module.
pub open spec fn interface_path(name: Seq<char>) -> Seq<char> {
    "super::"@ + server_module(name) + "::"@ + name
}

/// The bounds on the held handle: it dereferences to the interface, and is
/// `Sync`, `Send` and `'static`.
pub open spec fn bounds_text(iface: Seq<char>) -> Seq<char> {
    "        T: ::std::ops::Deref<Target = dyn "@ + iface
        + ">,\n        T: Sync,\n        T: Send,\n        T: 'static,\n"@
}

/// The request type of a forwarding method, resolved as the interface resolves it.
pub open spec fn request_type(m: MethodDescriptor) -> Seq<char> {
    resolved_type(m.input_proto_type@, m.input_type@, "super"@, true)
}

/// The response type of a forwarding method, resolved as the interface resolves it.
pub open spec fn response_type(m: MethodDescriptor) -> Seq<char> {
    resolved_type(m.output_proto_type@, m.output_type@, "super"@, true)
}

/// The signature of the forwarding method, up to its opening brace.
pub open spec fn signature_text(name: Seq<char>, req: Seq<char>, resp: Seq<char>) -> Seq<char> {
    "        async fn "@ + name + "(\n            &self,\n            request: tonic::Request<"@
        + req + ">,\n        ) -> std::result::Result<tonic::Response<"@ + resp
        + ">, tonic::Status> {\n"@
}

/// The body of the forwarding method: the call on the held handle, whose
/// result is returned as it is.
pub open spec fn forward_text(name: Seq<char>) -> Seq<char> {
    "            self.inner."@ + name + "(request).await\n        }\n"@
}

pub open spec fn method_text(m: MethodDescriptor) -> Seq<char> {
    signature_text(m.name@, request_type(m), response_type(m)) + forward_text(m.name@)
}

/// The forwarding methods of `ms`, in order.
pub open spec fn methods_text(ms: Seq<MethodDescriptor>) -> Seq<char>
    decreases ms.len(),
{
    if ms.len() == 0 {
        Seq::empty()
    } else {
        methods_text(ms.drop_last()) + method_text(ms.last())
    }
}

pub open spec fn header_text(name: Seq<char>) -> Seq<char> {
    "pub mod "@ + wrapper_module(name)
        + " {\n    #![allow(unused_variables, dead_code, missing_docs, clippy::let_unit_value)]\n    use tonic::codegen::*;\n    pub struct "@
        + wrapper_type(name) + "<T>\n    where\n"@ + bounds_text(interface_path(name))
        + "    {\n        inner: T,\n    }\n"@
}

pub open spec fn constructor_text(name: Seq<char>) -> Seq<char> {
    "    impl<T> "@ + wrapper_type(name) + "<T>\n    where\n"@ + bounds_text(
        interface_path(name),
    )
        + "    {\n        pub fn new(inner: T) -> Self {\n            Self { inner }\n        }\n    }\n"@
}

pub open spec fn impl_head_text(name: Seq<char>) -> Seq<char> {
    "    #[async_trait]\n    impl<T> "@ + interface_path(name) + " for "@ + wrapper_type(name)
        + "<T>\n    where\n"@ + bounds_text(interface_path(name)) + "    {\n"@
}

/// The whole wrapper module of service `name` with methods `ms`.
pub open spec fn wrapper_text(name: Seq<char>, ms: Seq<MethodDescriptor>) -> Seq<char> {
    header_text(name) + constructor_text(name) + impl_head_text(name) + methods_text(ms)
        + "    }\n}\n"@
}

fn push_bounds(out: &mut String, iface: &str)
    ensures
        final(out)@ == old(out)@ + bounds_text(iface@),
{
    let ghost start = out@;
    out.append("        T: ::std::ops::Deref<Target = dyn ");
    out.append(iface);
    out.append(">,\n        T: Sync,\n        T: Send,\n        T: 'static,\n");
    assert(out@ =~= start + bounds_text(iface@));
}

fn push_method(out: &mut String, m: &MethodDescriptor)
    ensures
        final(out)@ == old(out)@ + method_text(*m),
{
    let ghost start = out@;
    let req = resolve_type_path(m.input_proto_type.as_str(), m.input_type.as_str(), "super", true);
    let resp = resolve_type_path(
        m.output_proto_type.as_str(),
        m.output_type.as_str(),
        "super",
        true,
    );
    out.append("        async fn ");
    out.append(m.name.as_str());
    out.append("(\n            &self,\n            request: tonic::Request<");
    out.append(req.as_str());
    out.append(">,\n        ) -> std::result::Result<tonic::Response<");
    out.append(resp.as_str());
    out.append(">, tonic::Status> {\n");
    out.append("            self.inner.");
    out.append(m.name.as_str());
    out.append("(request).await\n        }\n");
    assert(out@ =~= start + method_text(*m));
}

proof fn lemma_methods_text_split(ms: Seq<MethodDescriptor>, i: int) -> (post: Seq<char>)
    requires
        0 <= i < ms.len(),
    ensures
        methods_text(ms) == methods_text(ms.take(i)) + method_text(ms[i]) + post,
    decreases ms.len(),
{
    if i == ms.len() - 1 {
        assert(ms.drop_last() =~= ms.take(i));
        assert(methods_text(ms) =~= methods_text(ms.take(i)) + method_text(ms[i])
            + Seq::<char>::empty());
        Seq::empty()
    } else {
        let d = ms.drop_last();
        let p = lemma_methods_text_split(d, i);
        assert(d.take(i) =~= ms.take(i));
        assert(d[i] == ms[i]);
        let post = p + method_text(ms.last());
        assert(methods_text(ms) =~= methods_text(ms.take(i)) + method_text(ms[i]) + post);
        post
    }
}

/// For every method of the service, the wrapper holds a forwarding method of
/// the same name whose request and response types are those the interface
/// gives it (the same resolution, from a sibling module), and whose body
/// returns the held handle's result unchanged.
pub proof fn lemma_every_method_forwarded(name: Seq<char>, ms: Seq<MethodDescriptor>, i: int)
    requires
        0 <= i < ms.len(),
    ensures
        exists|pre: Seq<char>, post: Seq<char>|
            wrapper_text(name, ms) == pre + signature_text(
                ms[i].name@,
                resolved_type(ms[i].input_proto_type@, ms[i].input_type@, "super"@, true),
                resolved_type(ms[i].output_proto_type@, ms[i].output_type@, "super"@, true),
            ) + forward_text(ms[i].name@) + post,
{
    let p = lemma_methods_text_split(ms, i);
    let pre = header_text(name) + constructor_text(name) + impl_head_text(name) + methods_text(
        ms.take(i),
    );
    let post = p + "    }\n}\n"@;
    assert(wrapper_text(name, ms) =~= pre + signature_text(
        ms[i].name@,
        resolved_type(ms[i].input_proto_type@, ms[i].input_type@, "super"@, true),
        resolved_type(ms[i].output_proto_type@, ms[i].output_type@, "super"@, true),
    ) + forward_text(ms[i].name@) + post);
}

/// The source text of the wrapper module of `service`.
pub fn wrapper_source(service: &ServiceDescriptor) -> (r: String)
    ensures
        r@ == wrapper_text(service.name@, service.methods@),
{
    let name = service.name.as_str();
    let snake = naive_snake_case(name);
    let mut iface = String::from_str("super::");
    iface.append(snake.as_str());
    iface.append("_server");
    iface.append("::");
    iface.append(name);
    assert(iface@ =~= interface_path(name@));
    let mut wrapper = String::from_str(name);
    wrapper.append("Wrapper");

    let mut out = String::from_str("pub mod ");
    out.append(snake.as_str());
    out.append("_wrapper");
    out.append(
        " {\n    #![allow(unused_variables, dead_code, missing_docs, clippy::let_unit_value)]\n    use tonic::codegen::*;\n    pub struct ",
    );
    out.append(wrapper.as_str());
    out.append("<T>\n    where\n");
    push_bounds(&mut out, iface.as_str());
    out.append("    {\n        inner: T,\n    }\n");
    assert(out@ =~= header_text(name@));

    let ghost after_header = out@;
    out.append("    impl<T> ");
    out.append(wrapper.as_str());
    out.append("<T>\n    where\n");
    push_bounds(&mut out, iface.as_str());
    out.append(
        "    {\n        pub fn new(inner: T) -> Self {\n            Self { inner }\n        }\n    }\n",
    );
    assert(out@ =~= after_header + constructor_text(name@));

    let ghost after_ctor = out@;
    out.append("    #[async_trait]\n    impl<T> ");
    out.append(iface.as_str());
    out.append(" for ");
    out.append(wrapper.as_str());
    out.append("<T>\n    where\n");
    push_bounds(&mut out, iface.as_str());
    out.append("    {\n");
    assert(out@ =~= after_ctor + impl_head_text(name@));

    let ghost before_methods = out@;
    let ms = &service.methods;
    let mut i: usize = 0;
    while i < ms.len()
        invariant
            i <= ms@.len(),
            out@ == before_methods + methods_text(ms@.take(i as int)),
        decreases ms@.len() - i,
    {
        push_method(&mut out, &ms[i]);
        proof {
            let t = ms@.take(i + 1);
            assert(t.drop_last() =~= ms@.take(i as int));
            assert(t.last() == ms@[i as int]);
            assert(out@ =~= before_methods + methods_text(t));
        }
        i = i + 1;
    }
    assert(ms@.take(ms@.len() as int) =~= ms@);
    out.append("    }\n}\n");
    assert(out@ =~= wrapper_text(name@, ms@));
    out
}

/// Appends the wrapper module of `service` to `buf` when its delimiters are
/// balanced; otherwise leaves `buf` as it was and names the service.
pub fn append_wrapper(service: &ServiceDescriptor, buf: &mut String) -> (r: Result<(), MalformedWrapper>)
    ensures
        r is Ok <==> balanced(wrapper_text(service.name@, service.methods@)),
        r is Ok ==> final(buf)@ == old(buf)@ + wrapper_text(service.name@, service.methods@),
        r is Err ==> final(buf)@ == old(buf)@,
        r matches Err(e) ==> e.service@ == service.name@,
{
    let code = wrapper_source(service);
    if is_balanced(code.as_str()) {
        buf.append(code.as_str());
        Ok(())
    } else {
        Err(MalformedWrapper { service: service.name.clone() })
    }
}

} // verus!
