//! Connections that answer with a response that was fixed in advance.
//!
//! They take all that is written to them and keep it, and hand out their
//! response whatever was sent. They are reliable, so that what the client
//! sends and what it makes of a response can be followed exactly.

use crate::cache::remote::{ConnectionPlan, Connector};
use crate::error::IoError;
use crate::util::http::error::HttpClientError;
use crate::util::http::request::Connection;
use crate::util::io::{Read, Write};
use vstd::prelude::*;

verus! {

/// Reads the bytes of a response that was fixed in advance.
#[derive(Debug)]
pub struct CannedReader {
    data: Vec<u8>,
    offset: usize,
}

impl CannedReader {
    /// Creates a reader of `data`.
    pub fn new(data: Vec<u8>) -> (reader: Self)
        ensures
            reader.remaining() == data@,
    {
        let reader = CannedReader { data, offset: 0 };
        assert(reader.remaining() =~= data@);
        reader
    }
}

impl Read for CannedReader {
    closed spec fn remaining(&self) -> Seq<u8> {
        if self.offset <= self.data@.len() {
            self.data@.skip(self.offset as int)
        } else {
            Seq::<u8>::empty()
        }
    }

    open spec fn reliable(&self) -> bool {
        true
    }

    fn read(&mut self, max_len: usize) -> (r: Result<Vec<u8>, IoError>) {
        let size = self.data.len();
        if self.offset >= size {
            let bytes: Vec<u8> = Vec::new();
            proof {
                let rest = self.remaining();
                assert(rest =~= Seq::<u8>::empty());
                assert(bytes@ =~= rest.take(0));
                assert(rest =~= rest.skip(0));
            }
            return Ok(bytes);
        }
        let available = size - self.offset;
        let n = if max_len <= available {
            max_len
        } else {
            available
        };
        let bytes = vstd::slice::slice_to_vec(
            vstd::slice::slice_subrange(self.data.as_slice(), self.offset, self.offset + n),
        );
        proof {
            let all = self.data@;
            assert(bytes@ =~= all.skip(self.offset as int).take(n as int));
            assert(all.skip(self.offset as int).skip(n as int) =~= all.skip(self.offset + n));
        }
        self.offset = self.offset + n;
        Ok(bytes)
    }
}

/// A connection that keeps what is sent over it and answers with a response
/// that was fixed in advance.
#[derive(Debug)]
pub struct CannedConnection {
    sent: Vec<u8>,
    response: Vec<u8>,
}

impl CannedConnection {
    /// The response that the connection answers with.
    pub closed spec fn response(&self) -> Seq<u8> {
        self.response@
    }

    /// Creates a connection, over which nothing has been sent, that answers
    /// with `response`.
    pub fn new(response: Vec<u8>) -> (connection: Self)
        ensures
            connection.response() == response@,
            connection.written() == Seq::<u8>::empty(),
    {
        CannedConnection { sent: Vec::new(), response }
    }

    /// What has been sent over the connection.
    pub fn sent(&self) -> (sent: &Vec<u8>)
        ensures
            sent@ == self.written(),
    {
        &self.sent
    }
}

impl Write for CannedConnection {
    closed spec fn written(&self) -> Seq<u8> {
        self.sent@
    }

    open spec fn reliable(&self) -> bool {
        true
    }

    /// The connection holds nothing back.
    open spec fn flushed(&self) -> bool {
        true
    }

    fn write(&mut self, buf: &[u8]) -> (r: Result<usize, IoError>)
        ensures
            final(self).response() == old(self).response(),
    {
        self.sent.extend_from_slice(buf);
        Ok(buf.len())
    }

    fn flush(&mut self) -> (r: Result<(), IoError>)
        ensures
            final(self).response() == old(self).response(),
    {
        Ok(())
    }
}

impl Connection for CannedConnection {
    type Reader = CannedReader;

    /// The connection hands out a reader of its response.
    open spec fn hands_out(&self, r: Result<CannedReader, IoError>) -> bool {
        r matches Ok(reader) && reader.remaining() == self.response()
    }

    fn into_reader(self) -> (r: Result<CannedReader, IoError>) {
        Ok(CannedReader::new(self.response))
    }
}

/// Makes connections that all answer with the same response, which was
/// fixed in advance.
#[derive(Debug)]
pub struct CannedConnector {
    response: Vec<u8>,
}

impl CannedConnector {
    /// The response that the connections answer with.
    pub closed spec fn response(&self) -> Seq<u8> {
        self.response@
    }

    /// Creates a connector whose connections answer with `response`.
    pub fn new(response: Vec<u8>) -> (connector: Self)
        ensures
            connector.response() == response@,
    {
        CannedConnector { response }
    }
}

impl Connector for CannedConnector {
    type Connection = CannedConnection;

    /// Every connection is made: nothing has been sent over it, and it
    /// answers with the response of the connector, which stays as it is.
    open spec fn connects(
        &self,
        after: &Self,
        plan: ConnectionPlan,
        r: Result<CannedConnection, HttpClientError>,
    ) -> bool {
        after.response() == self.response() && (r matches Ok(connection) && connection.written()
            == Seq::<u8>::empty() && connection.response() == self.response())
    }

    fn connect(&mut self, plan: &ConnectionPlan) -> (r: Result<CannedConnection, HttpClientError>) {
        Ok(CannedConnection::new(self.response.clone()))
    }
}

} // verus!
