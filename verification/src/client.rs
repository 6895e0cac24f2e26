//! The user-facing clients: a general client, and one whose requests all have one type.
use core::marker::PhantomData;
use vstd::prelude::*;

use crate::encoding::GrpcWebContentType;
use crate::metadata::Metadata;
use crate::transport::GrpcWebTransport;

verus! {

/// A gRPC-Web client: the settings of the calls it makes.
pub struct Client {
    transport: GrpcWebTransport,
}

impl Client {
    pub closed spec fn transport_spec(&self) -> GrpcWebTransport {
        self.transport
    }

    /// A client for the server at `base_url`, in binary format, with no metadata.
    pub fn new(base_url: &str) -> (r: Client)
        ensures
            r.transport_spec().base_url_view() == base_url@,
            r.transport_spec().content_type_spec() == GrpcWebContentType::Binary,
            r.transport_spec().default_metadata_view() == Map::<Seq<char>, Seq<char>>::empty(),
    {
        Client { transport: GrpcWebTransport::new(base_url) }
    }

    /// The same client with another wire format.
    pub fn with_content_type(self, content_type: GrpcWebContentType) -> (r: Client)
        ensures
            r.transport_spec().base_url_view() == self.transport_spec().base_url_view(),
            r.transport_spec().content_type_spec() == content_type,
            r.transport_spec().default_metadata_view() == self.transport_spec().default_metadata_view(),
    {
        Client { transport: self.transport.with_content_type(content_type) }
    }

    /// The same client with other metadata for every call.
    pub fn with_metadata(self, metadata: Metadata) -> (r: Client)
        ensures
            r.transport_spec().base_url_view() == self.transport_spec().base_url_view(),
            r.transport_spec().content_type_spec() == self.transport_spec().content_type_spec(),
            r.transport_spec().default_metadata_view() == metadata@,
    {
        Client { transport: self.transport.with_metadata(metadata) }
    }

    /// The settings of this client's calls.
    pub fn transport(&self) -> (r: &GrpcWebTransport)
        ensures
            *r == self.transport_spec(),
    {
        &self.transport
    }
}

/// A client whose requests are all of type `T`.
pub struct StreamingClient<T> {
    client: Client,
    _phantom: PhantomData<T>,
}

impl<T> StreamingClient<T> {
    pub closed spec fn client_spec(&self) -> Client {
        self.client
    }

    /// A client for the server at `base_url`, in binary format, with no metadata.
    pub fn new(base_url: &str) -> (r: StreamingClient<T>)
        ensures
            r.client_spec().transport_spec().base_url_view() == base_url@,
            r.client_spec().transport_spec().content_type_spec() == GrpcWebContentType::Binary,
            r.client_spec().transport_spec().default_metadata_view() == Map::<
                Seq<char>,
                Seq<char>,
            >::empty(),
    {
        StreamingClient { client: Client::new(base_url), _phantom: PhantomData }
    }

    /// The same client with another wire format.
    pub fn with_content_type(self, content_type: GrpcWebContentType) -> (r: StreamingClient<T>)
        ensures
            r.client_spec().transport_spec().base_url_view()
                == self.client_spec().transport_spec().base_url_view(),
            r.client_spec().transport_spec().content_type_spec() == content_type,
            r.client_spec().transport_spec().default_metadata_view()
                == self.client_spec().transport_spec().default_metadata_view(),
    {
        StreamingClient { client: self.client.with_content_type(content_type), _phantom: PhantomData }
    }

    /// The same client with other metadata for every call.
    pub fn with_metadata(self, metadata: Metadata) -> (r: StreamingClient<T>)
        ensures
            r.client_spec().transport_spec().base_url_view()
                == self.client_spec().transport_spec().base_url_view(),
            r.client_spec().transport_spec().content_type_spec()
                == self.client_spec().transport_spec().content_type_spec(),
            r.client_spec().transport_spec().default_metadata_view() == metadata@,
    {
        StreamingClient { client: self.client.with_metadata(metadata), _phantom: PhantomData }
    }

    /// The general client that makes this client's calls.
    pub fn client(&self) -> (r: &Client)
        ensures
            *r == self.client_spec(),
    {
        &self.client
    }
}

} // verus!
