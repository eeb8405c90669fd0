use urpc::client::{MethodId, RequestType as ClientRequest, RpcClient};
use urpc::consts::{REP_HEADER_LEN, REQ_HEADER_LEN};
use urpc::server::{reply_err_for, ParseResult, Request, RequestType as ServerRequest, RpcServer};
use urpc::{
    rep_header_from_bytes, req_header_from_bytes, Body, Error, OptBufNo, OptBufYes, ReplyHeader,
    RequestHeader,
};

struct PingId;
impl MethodId for PingId {
    const METHOD_ID: u8 = 0;
}

struct SendBytesId;
impl MethodId for SendBytesId {
    const METHOD_ID: u8 = 1;
}

struct RecvBytesId;
impl MethodId for RecvBytesId {
    const METHOD_ID: u8 = 2;
}

struct NopId;
impl MethodId for NopId {
    const METHOD_ID: u8 = 3;
}

struct UnknownId;
impl MethodId for UnknownId {
    const METHOD_ID: u8 = 99;
}

type Ping = ClientRequest<PingId, [u8; 4], OptBufNo, [u8; 4], OptBufNo>;
type SendBytes = ClientRequest<SendBytesId, u32, OptBufYes, u32, OptBufNo>;
type RecvBytes = ClientRequest<RecvBytesId, u32, OptBufNo, u32, OptBufYes>;
type Nop = ClientRequest<NopId, (), OptBufNo, (), OptBufNo>;
type Unknown = ClientRequest<UnknownId, (), OptBufNo, u32, OptBufNo>;

enum Served<'a> {
    Ping(ServerRequest<[u8; 4], OptBufNo, [u8; 4], OptBufNo>),
    SendBytes((ServerRequest<u32, OptBufYes, u32, OptBufNo>, &'a [u8])),
    RecvBytes(ServerRequest<u32, OptBufNo, u32, OptBufYes>),
    Nop(ServerRequest<(), OptBufNo, (), OptBufNo>),
}

impl<'a> Request<'a> for Served<'a> {
    fn from_bytes(header: RequestHeader, body: &'a [u8], side: &'a [u8]) -> Result<Self, Error> {
        match header.method_idx {
            0 => Ok(Served::Ping(
                ServerRequest::<[u8; 4], OptBufNo, [u8; 4], OptBufNo>::from_bytes(
                    header, body, side,
                )?,
            )),
            1 => Ok(Served::SendBytes(
                ServerRequest::<u32, OptBufYes, u32, OptBufNo>::from_bytes(header, body, side)?,
            )),
            2 => Ok(Served::RecvBytes(
                ServerRequest::<u32, OptBufNo, u32, OptBufYes>::from_bytes(header, body, side)?,
            )),
            3 => Ok(Served::Nop(
                ServerRequest::<(), OptBufNo, (), OptBufNo>::from_bytes(header, body, side)?,
            )),
            _ => Err(Error::UnknownMethod),
        }
    }
}

/// Feed `bytes` to the server as it asks, until one request is in.  Returns the
/// request and the number of bytes consumed.
fn serve<'a>(server: &mut RpcServer, bytes: &'a [u8]) -> (Served<'a>, usize) {
    let mut pos = 0;
    let mut need = REQ_HEADER_LEN;
    loop {
        let chunk = &bytes[pos..pos + need];
        pos += need;
        match Served::from_rpc(server, chunk).unwrap() {
            ParseResult::NeedBytes(n) => need = n,
            ParseResult::Request(r) => return (r, pos),
        }
    }
}

/// Feed all of `bytes` to the client as it asks; returns the channels completed.
fn feed_client(client: &mut RpcClient, bytes: &[u8]) -> Vec<u8> {
    let mut done = Vec::new();
    let mut pos = 0;
    let mut need = REP_HEADER_LEN;
    while pos < bytes.len() {
        let (n, chan) = client.parse(&bytes[pos..pos + need]).unwrap();
        pos += need;
        need = n;
        if let Some(c) = chan {
            done.push(c);
        }
    }
    done
}

#[test]
fn ping_scenario() {
    let mut client = RpcClient::new();
    let mut req = Ping::new([0, 1, 2, 3]);
    let mut out = vec![0u8; 32];
    let n = req.request(&mut client, vec![0; 32], &mut out).unwrap();
    assert_eq!(&out[..n], &[0x00, 0x01, 0x00, 0x04, 0x00, 0x00, 0x00, 0x00, 0x01, 0x02, 0x03]);
    assert_eq!(req.chan_id(), 1);

    let mut server = RpcServer::new(32);
    let mut reply = vec![0u8; 32];
    let (served, used) = serve(&mut server, &out[..n]);
    assert_eq!(used, n);
    let m = match served {
        Served::Ping(ping) => {
            assert_eq!(ping.body, [0, 1, 2, 3]);
            let body = ping.body;
            ping.reply(body, &mut reply).unwrap()
        }
        _ => panic!("wrong method"),
    };
    assert_eq!(&reply[..m], &[0x01, 0x00, 0x04, 0x00, 0x00, 0x00, 0x00, 0x01, 0x02, 0x03]);

    assert_eq!(feed_client(&mut client, &reply[..m]), vec![1]);
    assert_eq!(req.take_reply(&mut client).unwrap().unwrap(), [0, 1, 2, 3]);
}

#[test]
fn send_bytes_scenario() {
    let mut client = RpcClient::new();
    let side: Vec<u8> = (0..10).collect();
    let mut req = SendBytes::new(1100);
    let mut out = vec![0u8; 64];
    let n = req.request(&side, &mut client, vec![0; 32], &mut out).unwrap();
    assert_eq!(&out[..REQ_HEADER_LEN], &[0x01, 0x01, 0x00, 0x02, 0x00, 0x0A, 0x00]);
    assert_eq!(&out[REQ_HEADER_LEN..REQ_HEADER_LEN + 2], &[0xCC, 0x08]);
    assert_eq!(&out[REQ_HEADER_LEN + 2..n], &[0, 1, 2, 3, 4, 5, 6, 7, 8, 9]);
    assert_eq!(n, REQ_HEADER_LEN + 2 + 10);

    let mut server = RpcServer::new(64);
    let mut reply = vec![0u8; 32];
    let (served, _) = serve(&mut server, &out[..n]);
    let m = match served {
        Served::SendBytes((h, buf)) => {
            assert_eq!(h.body, 1100);
            assert_eq!(buf, &[0, 1, 2, 3, 4, 5, 6, 7, 8, 9]);
            h.reply(1111, &mut reply).unwrap()
        }
        _ => panic!("wrong method"),
    };
    assert_eq!(&reply[..m], &[0x01, 0x00, 0x02, 0x00, 0x00, 0x00, 0xD7, 0x08]);

    assert_eq!(feed_client(&mut client, &reply[..m]), vec![1]);
    assert_eq!(req.take_reply(&mut client).unwrap().unwrap(), 1111);
}

#[test]
fn recv_bytes_scenario() {
    let mut client = RpcClient::new();
    let mut req = RecvBytes::new(2200);
    let mut out = vec![0u8; 32];
    let n = req.request(&mut client, vec![0; 32], vec![0; 32], &mut out).unwrap();
    assert_eq!(&out[..n], &[0x02, 0x01, 0x00, 0x02, 0x00, 0x00, 0x00, 0x98, 0x11]);

    let mut server = RpcServer::new(32);
    let mut reply = vec![0u8; 32];
    let (served, _) = serve(&mut server, &out[..n]);
    let m = match served {
        Served::RecvBytes(h) => {
            assert_eq!(h.body, 2200);
            let side = h.get_opt_buf(&2222, &mut reply).unwrap();
            for i in 0..8 {
                side[i] = (i * 2) as u8;
            }
            h.reply(2222, 8, &mut reply).unwrap()
        }
        _ => panic!("wrong method"),
    };
    assert_eq!(
        &reply[..m],
        &[0x01, 0x00, 0x02, 0x00, 0x08, 0x00, 0xAE, 0x11, 0, 2, 4, 6, 8, 10, 12, 14]
    );

    assert_eq!(feed_client(&mut client, &reply[..m]), vec![1]);
    let (v, buf) = req.take_reply(&mut client).unwrap().unwrap();
    assert_eq!(v, 2222);
    assert_eq!(buf, vec![0, 2, 4, 6, 8, 10, 12, 14]);
}

#[test]
fn error_reply_scenario() {
    let mut client = RpcClient::new();
    let mut req = Unknown::new(());
    let mut out = vec![0u8; 32];
    let n = req.request(&mut client, vec![0; 32], &mut out).unwrap();
    assert_eq!(&out[..n], &[99, 0x01, 0x00, 0x00, 0x00, 0x00, 0x00]);

    let mut server = RpcServer::new(32);
    let mut reply = vec![0u8; 32];
    let m = match server.parse(&out[..n]).unwrap() {
        ParseResult::Request((header, body, side)) => {
            assert!(matches!(Served::from_bytes(header, body, side), Err(Error::UnknownMethod)));
            reply_err_for(header.chan_id, 0, &mut reply).unwrap()
        }
        ParseResult::NeedBytes(_) => panic!("header only"),
    };
    assert_eq!(&reply[..m], &[0x01, 0x01, 0x00, 0x00, 0x00, 0x00]);

    assert_eq!(client.parse(&reply[..m]).unwrap(), (REP_HEADER_LEN, Some(1)));
    assert!(matches!(req.take_reply(&mut client), Some(Err(Error::ErrReply))));
    assert!(req.take_reply(&mut client).is_none());
    // The slot is empty again: the next request takes channel 1 once more.
    let mut again = Ping::new([9, 9, 9, 9]);
    again.request(&mut client, vec![0; 8], &mut out).unwrap();
    assert_eq!(again.chan_id(), 1);
}

#[test]
fn out_of_order_scenario() {
    let mut client = RpcClient::new();
    let mut out = vec![0u8; 64];
    let side: Vec<u8> = (0..10).collect();
    let mut req1 = SendBytes::new(1100);
    let n1 = req1.request(&side, &mut client, vec![0; 16], &mut out).unwrap();
    let mut req2 = Ping::new([4, 5, 6, 7]);
    let n2 = req2.request(&mut client, vec![0; 16], &mut out[n1..]).unwrap();
    assert_eq!(req1.chan_id(), 1);
    assert_eq!(req2.chan_id(), 2);

    let mut server = RpcServer::new(64);
    let mut reply1 = vec![0u8; 32];
    let mut reply2 = vec![0u8; 32];
    let (first, used) = serve(&mut server, &out[..n1 + n2]);
    let m1 = match first {
        Served::SendBytes((h, _)) => h.reply(1111, &mut reply1).unwrap(),
        _ => panic!("wrong method"),
    };
    let (second, _) = serve(&mut server, &out[used..n1 + n2]);
    let m2 = match second {
        Served::Ping(p) => {
            let b = p.body;
            p.reply(b, &mut reply2).unwrap()
        }
        _ => panic!("wrong method"),
    };

    assert_eq!(feed_client(&mut client, &reply2[..m2]), vec![2]);
    assert!(req1.take_reply(&mut client).is_none());
    assert_eq!(req2.take_reply(&mut client).unwrap().unwrap(), [4, 5, 6, 7]);
    assert_eq!(feed_client(&mut client, &reply1[..m1]), vec![1]);
    assert_eq!(req1.take_reply(&mut client).unwrap().unwrap(), 1111);
}

#[test]
fn zero_length_body_and_side_buffer() {
    let mut client = RpcClient::new();
    let mut req = Nop::new(());
    let mut out = vec![0u8; 16];
    let n = req.request(&mut client, vec![0; 4], &mut out).unwrap();
    assert_eq!(&out[..n], &[0x03, 0x01, 0x00, 0x00, 0x00, 0x00, 0x00]);

    let mut server = RpcServer::new(16);
    let mut reply = vec![0u8; 16];
    // The header alone yields the request at once.
    let m = match server.parse(&out[..n]).unwrap() {
        ParseResult::Request((header, body, side)) => {
            assert!(body.is_empty());
            assert!(side.is_empty());
            match Served::from_bytes(header, body, side).unwrap() {
                Served::Nop(h) => h.reply((), &mut reply).unwrap(),
                _ => panic!("wrong method"),
            }
        }
        ParseResult::NeedBytes(_) => panic!("nothing more is needed"),
    };
    assert_eq!(&reply[..m], &[0x01, 0x00, 0x00, 0x00, 0x00, 0x00]);
    // The header alone completes the reply at once.
    assert_eq!(client.parse(&reply[..m]).unwrap(), (REP_HEADER_LEN, Some(1)));
    assert!(matches!(req.take_reply(&mut client), Some(Ok(()))));
}

#[test]
fn zero_length_reply_side_buffer() {
    let mut client = RpcClient::new();
    let mut req = RecvBytes::new(1);
    let mut out = vec![0u8; 16];
    req.request(&mut client, vec![0; 8], vec![7; 8], &mut out).unwrap();
    let reply = [0x01, 0x00, 0x01, 0x00, 0x00, 0x00, 0x05];
    assert_eq!(feed_client(&mut client, &reply), vec![1]);
    let (v, buf) = req.take_reply(&mut client).unwrap().unwrap();
    assert_eq!(v, 5);
    assert!(buf.is_empty());
}

#[test]
fn maximum_lengths_accepted() {
    let max: u16 = 16;
    let mut server = RpcServer::new(max);
    let header = [0x01, 0x01, 0x00, 15, 0x00, 15, 0x00];
    match server.parse(&header).unwrap() {
        ParseResult::NeedBytes(n) => assert_eq!(n, 30),
        _ => panic!("a body is due"),
    }
    let payload: Vec<u8> = (0..30).collect();
    match server.parse(&payload).unwrap() {
        ParseResult::Request((h, body, side)) => {
            assert_eq!(h.body_len, 15);
            assert_eq!(h.buf_len, 15);
            assert_eq!(body, &payload[..15]);
            assert_eq!(side, &payload[15..]);
        }
        _ => panic!("the request is complete"),
    }

    // The client side: a reply of the same sizes into destinations of that size.
    let mut client = RpcClient::new();
    let mut req = RecvBytes::new(0);
    let mut out = vec![0u8; 16];
    req.request(&mut client, vec![0; 15], vec![0; 15], &mut out).unwrap();
    let mut reply = vec![0x01, 0x00, 15, 0x00, 15, 0x00];
    reply.extend(0..30u8);
    let (n, done) = client.parse(&reply[..REP_HEADER_LEN]).unwrap();
    assert_eq!((n, done), (30, None));
    assert_eq!(client.parse(&reply[REP_HEADER_LEN..]).unwrap(), (REP_HEADER_LEN, Some(1)));
    let (header, body, side) = client.take_reply(1).unwrap();
    assert_eq!(header.body_len, 15);
    assert_eq!(body, (0..15u8).collect::<Vec<u8>>());
    assert_eq!(side.unwrap(), (15..30u8).collect::<Vec<u8>>());
}

#[test]
fn lengths_at_the_bound_rejected() {
    let mut server = RpcServer::new(16);
    let body_at_bound = [0x01, 0x01, 0x00, 16, 0x00, 0x00, 0x00];
    assert!(matches!(server.parse(&body_at_bound), Err(Error::LenExceedsMax)));
    let side_at_bound = [0x01, 0x01, 0x00, 0x00, 0x00, 16, 0x00];
    assert!(matches!(server.parse(&side_at_bound), Err(Error::LenExceedsMax)));
}

#[test]
fn reply_for_empty_slot() {
    let mut client = RpcClient::new();
    let reply = [0x05, 0x00, 0x00, 0x00, 0x00, 0x00];
    assert!(matches!(client.parse(&reply), Err(Error::SlotEmpty)));
    // An all-zero buffer does not parse as a reply either.
    assert!(matches!(client.parse(&[0u8; 6]), Err(Error::SlotEmpty)));
}

#[test]
fn side_buffer_for_method_without_one() {
    let header = RequestHeader { method_idx: 0, chan_id: 1, opts: 0, body_len: 4, buf_len: 2 };
    let body = [1, 2, 3, 4];
    let side = [5, 6];
    let r = ServerRequest::<[u8; 4], OptBufNo, [u8; 4], OptBufNo>::from_bytes(header, &body, &side);
    assert!(matches!(r, Err(Error::UnexpectedSideBuf)));
    assert!(matches!(Served::from_bytes(header, &body, &side), Err(Error::UnexpectedSideBuf)));
}

#[test]
fn all_channels_busy() {
    let mut client = RpcClient::new();
    let mut out = vec![0u8; 16];
    let mut chans = Vec::new();
    for _ in 0..256 {
        let mut req = Ping::new([0; 4]);
        req.request(&mut client, vec![0; 4], &mut out).unwrap();
        chans.push(req.chan_id());
    }
    let mut expected: Vec<u8> = (1..=255).collect();
    expected.push(0);
    assert_eq!(chans, expected);
    let mut req = Ping::new([0; 4]);
    let before = out.clone();
    assert!(matches!(req.request(&mut client, vec![0; 4], &mut out), Err(Error::NoFreeChannel)));
    assert_eq!(req.chan_id(), 0);
    assert_eq!(out, before);
}

#[test]
fn freed_channel_taken_first() {
    let mut client = RpcClient::new();
    let mut out = vec![0u8; 16];
    let mut reqs = Vec::new();
    for _ in 0..3 {
        let mut req = Ping::new([1; 4]);
        req.request(&mut client, vec![0; 4], &mut out).unwrap();
        reqs.push(req);
    }
    let reply = [0x02, 0x00, 0x04, 0x00, 0x00, 0x00, 1, 1, 1, 1];
    assert_eq!(feed_client(&mut client, &reply), vec![2]);
    assert!(reqs[1].take_reply(&mut client).is_some());
    let mut next = Ping::new([2; 4]);
    next.request(&mut client, vec![0; 4], &mut out).unwrap();
    assert_eq!(next.chan_id(), 2);
}

#[test]
fn emit_then_parse_round_trip() {
    let mut client = RpcClient::new();
    let side = [42u8, 43, 44];
    let mut req = SendBytes::new(300);
    let mut out = vec![0u8; 32];
    let n = req.request(&side, &mut client, vec![0; 8], &mut out).unwrap();
    let mut server = RpcServer::new(32);
    let (served, used) = serve(&mut server, &out[..n]);
    assert_eq!(used, n);
    match served {
        Served::SendBytes((h, buf)) => {
            assert_eq!(h.body, 300);
            assert_eq!(buf, &side);
        }
        _ => panic!("wrong method"),
    }
    let header = req_header_from_bytes(&out[..n]).unwrap();
    assert_eq!(header.method_idx, 1);
    assert_eq!(header.chan_id, req.chan_id());
}

#[test]
fn reply_round_trip_with_side_buffer() {
    let mut client = RpcClient::new();
    let mut req = RecvBytes::new(7);
    let mut out = vec![0u8; 32];
    let n = req.request(&mut client, vec![0; 8], vec![0; 8], &mut out).unwrap();
    let mut server = RpcServer::new(32);
    let mut reply = vec![0u8; 32];
    let (served, _) = serve(&mut server, &out[..n]);
    let m = match served {
        Served::RecvBytes(h) => {
            let side = h.get_opt_buf(&123456, &mut reply).unwrap();
            side[..3].copy_from_slice(&[9, 8, 7]);
            h.reply(123456, 3, &mut reply).unwrap()
        }
        _ => panic!("wrong method"),
    };
    assert_eq!(feed_client(&mut client, &reply[..m]), vec![1]);
    let (v, buf) = req.take_reply(&mut client).unwrap().unwrap();
    assert_eq!(v, 123456);
    assert_eq!(buf, vec![9, 8, 7]);
}

#[test]
fn need_bytes_accounting() {
    // Two requests back to back: consumed bytes = NeedBytes returned + headers read.
    let mut client = RpcClient::new();
    let mut out = vec![0u8; 64];
    let side: Vec<u8> = (0..5).collect();
    let mut a = SendBytes::new(70000);
    let na = a.request(&side, &mut client, vec![0; 8], &mut out).unwrap();
    let mut b = Nop::new(());
    let nb = b.request(&mut client, vec![0; 8], &mut out[na..]).unwrap();
    let stream = &out[..na + nb];

    let mut server = RpcServer::new(64);
    let mut pos = 0;
    let mut need = REQ_HEADER_LEN;
    let mut needs = 0;
    let mut headers = 0;
    let mut requests = 0;
    let mut waiting_header = true;
    while pos < stream.len() {
        if waiting_header {
            headers += need;
        }
        let r = server.parse(&stream[pos..pos + need]).unwrap();
        pos += need;
        match r {
            ParseResult::NeedBytes(n) => {
                needs += n;
                need = n;
                waiting_header = false;
            }
            ParseResult::Request(_) => {
                requests += 1;
                need = REQ_HEADER_LEN;
                waiting_header = true;
            }
        }
    }
    assert_eq!(requests, 2);
    assert_eq!(pos, needs + headers);
    assert_eq!(headers, 2 * REQ_HEADER_LEN);
}

#[test]
fn client_need_bytes_accounting() {
    // Consumed bytes plus the count still asked for = the first header + all counts returned.
    let mut client = RpcClient::new();
    let mut out = vec![0u8; 32];
    let mut a = RecvBytes::new(1);
    a.request(&mut client, vec![0; 8], vec![0; 8], &mut out).unwrap();
    let mut b = Nop::new(());
    b.request(&mut client, vec![0; 8], &mut out).unwrap();
    let mut stream = vec![0x01, 0x00, 0x01, 0x00, 0x03, 0x00, 0x2A, 7, 8, 9];
    stream.extend([0x02, 0x00, 0x00, 0x00, 0x00, 0x00]);
    let mut pos = 0;
    let mut need = REP_HEADER_LEN;
    let mut returned = 0;
    while pos < stream.len() {
        let (n, _) = client.parse(&stream[pos..pos + need]).unwrap();
        pos += need;
        need = n;
        returned += n;
    }
    assert_eq!(pos + need, REP_HEADER_LEN + returned);
    assert_eq!(a.take_reply(&mut client).unwrap().unwrap(), (42, vec![7, 8, 9]));
    assert!(matches!(b.take_reply(&mut client), Some(Ok(()))));
}

#[test]
fn await_reply_steps() {
    let mut client = RpcClient::new();
    let mut out = vec![0u8; 16];
    let mut a = Ping::new([0; 4]);
    a.request(&mut client, vec![0; 4], &mut out).unwrap();
    let mut b = Nop::new(());
    b.request(&mut client, vec![0; 4], &mut out).unwrap();
    // The reply on channel 2 comes first: it completes, but channel 1 is still awaited.
    assert_eq!(client.await_reply(1, &[0x02, 0x00, 0x00, 0x00, 0x00, 0x00]).unwrap(), Some(6));
    assert_eq!(client.await_reply(1, &[0x01, 0x00, 0x04, 0x00, 0x00, 0x00]).unwrap(), Some(4));
    assert_eq!(client.await_reply(1, &[5, 6, 7, 8]).unwrap(), None);
    assert_eq!(a.take_reply(&mut client).unwrap().unwrap(), [5, 6, 7, 8]);
    assert!(matches!(b.take_reply(&mut client), Some(Ok(()))));
    assert!(matches!(client.await_reply(1, &[0x01, 0x00]), Err(Error::BadHeader)));
}

#[test]
fn body_destination_keeps_its_length() {
    let mut client = RpcClient::new();
    let mut req = SendBytes::new(1);
    let mut out = vec![0u8; 16];
    req.request(&[], &mut client, vec![0xEE; 8], &mut out).unwrap();
    let reply = [0x01, 0x00, 0x02, 0x00, 0x00, 0x00, 0xD7, 0x08];
    assert_eq!(feed_client(&mut client, &reply), vec![1]);
    let (h, body, side) = client.take_reply(1).unwrap();
    assert_eq!(h.body_len, 2);
    assert_eq!(body, vec![0xD7, 0x08, 0xEE, 0xEE, 0xEE, 0xEE, 0xEE, 0xEE]);
    assert!(side.is_none());

    // The request handle decodes only the body's own bytes.
    let mut req = SendBytes::new(1);
    req.request(&[], &mut client, vec![0xEE; 8], &mut out).unwrap();
    feed_client(&mut client, &reply);
    assert_eq!(req.take_reply(&mut client).unwrap().unwrap(), 1111);
}

#[test]
fn reserved_opts_cleared_on_send() {
    let mut client = RpcClient::new();
    let mut header = RequestHeader { method_idx: 5, chan_id: 0, opts: 0xFF, body_len: 0, buf_len: 0 };
    let mut out = vec![0u8; 16];
    let n = client.req(&mut header, &7u32, None, vec![0; 4], None, &mut out).unwrap();
    assert_eq!(header.opts, 0);
    assert_eq!(&out[..n], &[5, 1, 0, 1, 0, 0, 0, 7]);
}

#[test]
fn short_output_buffers() {
    let mut client = RpcClient::new();
    let mut tiny = [0u8; 5];
    let mut req = Ping::new([1; 4]);
    assert!(matches!(req.request(&mut client, vec![0; 4], &mut tiny), Err(Error::OutBufTooShort)));
    assert_eq!(req.chan_id(), 0);

    let header = RequestHeader { method_idx: 0, chan_id: 1, opts: 0, body_len: 4, buf_len: 0 };
    let h = ServerRequest::<[u8; 4], OptBufNo, [u8; 4], OptBufNo>::from_bytes(header, &[1, 2, 3, 4], &[])
        .unwrap();
    assert!(matches!(h.reply([0; 4], &mut tiny), Err(Error::OutBufTooShort)));

    let header = RequestHeader { method_idx: 2, chan_id: 1, opts: 0, body_len: 1, buf_len: 0 };
    let h = ServerRequest::<u32, OptBufNo, u32, OptBufYes>::from_bytes(header, &[5], &[]).unwrap();
    assert!(matches!(h.get_opt_buf(&1, &mut tiny), Err(Error::OutBufTooShort)));
    assert!(matches!(h.reply(1, 0, &mut tiny), Err(Error::OutBufTooShort)));
}

#[test]
fn take_reply_twice() {
    let mut client = RpcClient::new();
    let mut req = Ping::new([1, 2, 3, 4]);
    let mut out = vec![0u8; 16];
    req.request(&mut client, vec![0; 4], &mut out).unwrap();
    assert!(client.take_reply(1).is_none());
    let reply = [0x01, 0x00, 0x04, 0x00, 0x00, 0x00, 4, 3, 2, 1];
    feed_client(&mut client, &reply);
    let (h, body, side) = client.take_reply(1).unwrap();
    assert_eq!(h.chan_id, 1);
    assert_eq!(body, vec![4, 3, 2, 1]);
    assert!(side.is_none());
    assert!(client.take_reply(1).is_none());
}

#[test]
fn slot_kinds_add_up() {
    // Waiting, Receiving, Complete and Empty slots all coexist; channels are
    // handed out only from Empty ones.
    let mut client = RpcClient::new();
    let mut out = vec![0u8; 16];
    for _ in 0..3 {
        Ping::new([0; 4]).request(&mut client, vec![0; 4], &mut out).unwrap();
    }
    // Channel 1 complete, channel 2 receiving, channel 3 waiting.
    feed_client(&mut client, &[0x01, 0x00, 0x04, 0x00, 0x00, 0x00, 1, 1, 1, 1]);
    assert_eq!(client.parse(&[0x02, 0x00, 0x04, 0x00, 0x00, 0x00]).unwrap(), (4, None));
    let mut count = 0;
    loop {
        let mut req = Ping::new([0; 4]);
        match req.request(&mut client, vec![0; 4], &mut out) {
            Ok(_) => count += 1,
            Err(Error::NoFreeChannel) => break,
            Err(e) => panic!("unexpected {:?}", e),
        }
    }
    assert_eq!(count + 3, 256);
}

#[test]
fn client_errors() {
    let mut out = vec![0u8; 16];

    let mut client = RpcClient::new();
    assert!(matches!(client.parse(&[0x01, 0x00, 0x00]), Err(Error::BadHeader)));

    // Body longer than the destination lent.
    let mut req = Ping::new([0; 4]);
    req.request(&mut client, vec![0; 2], &mut out).unwrap();
    let header = [0x01, 0x00, 0x04, 0x00, 0x00, 0x00];
    assert!(matches!(client.parse(&header), Err(Error::BodyTooLong)));

    // Side buffer for a request that lent none.
    let mut client = RpcClient::new();
    Ping::new([0; 4]).request(&mut client, vec![0; 4], &mut out).unwrap();
    let header = [0x01, 0x00, 0x04, 0x00, 0x01, 0x00];
    assert!(matches!(client.parse(&header), Err(Error::UnexpectedSideBuf)));

    // Side buffer longer than the destination lent.
    let mut client = RpcClient::new();
    RecvBytes::new(0).request(&mut client, vec![0; 4], vec![0; 2], &mut out).unwrap();
    let header = [0x01, 0x00, 0x01, 0x00, 0x03, 0x00];
    assert!(matches!(client.parse(&header), Err(Error::SideBufTooLong)));

    // A second reply on a channel whose reply awaits pickup.
    let mut client = RpcClient::new();
    Ping::new([0; 4]).request(&mut client, vec![0; 4], &mut out).unwrap();
    let reply = [0x01, 0x00, 0x04, 0x00, 0x00, 0x00, 1, 2, 3, 4];
    feed_client(&mut client, &reply);
    assert!(matches!(client.parse(&reply[..6]), Err(Error::SlotComplete)));

    // A feed shorter than asked for leaves the client waiting for it.
    let mut client = RpcClient::new();
    let mut req = Ping::new([0; 4]);
    req.request(&mut client, vec![0; 4], &mut out).unwrap();
    assert_eq!(client.parse(&reply[..6]).unwrap(), (4, None));
    assert!(matches!(client.parse(&reply[6..8]), Err(Error::ReceivedTooShort)));
    assert_eq!(client.parse(&reply[6..10]).unwrap(), (REP_HEADER_LEN, Some(1)));
    assert_eq!(req.take_reply(&mut client).unwrap().unwrap(), [1, 2, 3, 4]);

    // A body the codec cannot read.
    let mut client = RpcClient::new();
    let mut req = Ping::new([0; 4]);
    req.request(&mut client, vec![0; 4], &mut out).unwrap();
    feed_client(&mut client, &[0x01, 0x00, 0x02, 0x00, 0x00, 0x00, 1, 2]);
    assert!(matches!(req.take_reply(&mut client), Some(Err(Error::Codec(_)))));
}

#[test]
fn emitter_errors() {
    let mut client = RpcClient::new();
    // The body does not fit after the header.
    let mut out = vec![0u8; 9];
    let mut req = Ping::new([1, 2, 3, 4]);
    assert!(matches!(req.request(&mut client, vec![0; 4], &mut out), Err(Error::Codec(_))));
    // The side buffer does not fit after the body.
    let mut out = vec![0u8; 12];
    let mut req = SendBytes::new(1);
    let side = [0u8; 8];
    assert!(matches!(
        req.request(&side, &mut client, vec![0; 4], &mut out),
        Err(Error::OutBufTooShort)
    ));
    // A side buffer longer than a length field can say.
    let big = vec![0u8; 70000];
    let mut out = vec![0u8; 70100];
    assert!(matches!(
        req.request(&big, &mut client, vec![0; 4], &mut out),
        Err(Error::LenExceedsMax)
    ));
    // None of these took a channel.
    let mut ok = Ping::new([0; 4]);
    ok.request(&mut client, vec![0; 4], &mut out).unwrap();
    assert_eq!(ok.chan_id(), 1);
}

#[test]
fn server_errors() {
    let mut server = RpcServer::new(32);
    assert!(matches!(server.parse(&[0x00, 0x01]), Err(Error::BadHeader)));
    let header = [0x00, 0x01, 0x00, 0x04, 0x00, 0x00, 0x00];
    assert!(matches!(server.parse(&header), Ok(ParseResult::NeedBytes(4))));
    assert!(matches!(server.parse(&[1, 2]), Err(Error::ReceivedTooShort)));
    match server.parse(&[1, 2, 3, 4]).unwrap() {
        ParseResult::Request((h, body, side)) => {
            assert_eq!(h.chan_id, 1);
            assert_eq!(body, &[1, 2, 3, 4]);
            assert!(side.is_empty());
        }
        _ => panic!("the request is complete"),
    }

    // A body the codec cannot read.
    let header = RequestHeader { method_idx: 0, chan_id: 1, opts: 0, body_len: 2, buf_len: 0 };
    assert!(matches!(Served::from_bytes(header, &[1, 2], &[]), Err(Error::Codec(_))));

    // An error reply into a buffer too short for its header.
    let mut small = [0u8; 3];
    assert!(matches!(reply_err_for(1, 0, &mut small), Err(Error::OutBufTooShort)));

    // A reply body that does not fit.
    let header = RequestHeader { method_idx: 1, chan_id: 4, opts: 0, body_len: 1, buf_len: 0 };
    let (h, _) = ServerRequest::<u32, OptBufYes, u32, OptBufNo>::from_bytes(header, &[5], &[]).unwrap();
    assert_eq!(h.body, 5);
    let mut reply = [0u8; 7];
    assert!(matches!(h.reply(100000, &mut reply), Err(Error::Codec(_))));

    // A reply side buffer that does not fit after the body.
    let header = RequestHeader { method_idx: 2, chan_id: 4, opts: 0, body_len: 1, buf_len: 0 };
    let h = ServerRequest::<u32, OptBufNo, u32, OptBufYes>::from_bytes(header, &[5], &[]).unwrap();
    let mut reply = [0u8; 10];
    assert!(matches!(h.reply(1, 8, &mut reply), Err(Error::OutBufTooShort)));
}

#[test]
fn reply_err_on_handle() {
    let header = RequestHeader { method_idx: 0, chan_id: 9, opts: 0, body_len: 4, buf_len: 0 };
    let h = ServerRequest::<[u8; 4], OptBufNo, [u8; 4], OptBufNo>::from_bytes(header, &[1, 2, 3, 4], &[])
        .unwrap();
    let mut reply = [0xFFu8; 8];
    assert_eq!(h.reply_err(7, &mut reply).unwrap(), REP_HEADER_LEN);
    assert_eq!(reply, [0x09, 0x01, 0x00, 0x00, 0x00, 0x00, 0xFF, 0xFF]);
}

#[test]
fn header_layout() {
    let h = RequestHeader { method_idx: 2, chan_id: 7, opts: 0, body_len: 0x1234, buf_len: 0x0102 };
    let mut buf = [0xEEu8; 9];
    h.write_to(&mut buf);
    assert_eq!(buf, [2, 7, 0, 0x34, 0x12, 0x02, 0x01, 0xEE, 0xEE]);
    assert_eq!(req_header_from_bytes(&buf).unwrap(), h);
    assert!(matches!(req_header_from_bytes(&buf[..6]), Err(Error::BadHeader)));
    assert_eq!(h.body_len(), 0x1234);
    assert_eq!(h.buf_len(), 0x0102);

    let r = ReplyHeader { chan_id: 3, opts: 1, body_len: 0xABCD, buf_len: 5 };
    let mut buf = [0u8; 6];
    r.write_to(&mut buf);
    assert_eq!(buf, [3, 1, 0xCD, 0xAB, 5, 0]);
    assert_eq!(rep_header_from_bytes(&buf).unwrap(), r);
    assert!(r.is_err());
    assert!(matches!(rep_header_from_bytes(&buf[..5]), Err(Error::BadHeader)));
}

#[test]
fn body_codec() {
    let mut buf = [0u8; 8];
    assert_eq!(1100u32.encode_at(&mut buf, 2).unwrap(), 2);
    assert_eq!(buf, [0, 0, 0xCC, 0x08, 0, 0, 0, 0]);
    assert_eq!(<u32 as Body>::decode(&[0xCC, 0x08]).unwrap(), 1100);
    assert_eq!(u32::MAX.encode_at(&mut buf, 0).unwrap(), 5);
    assert!(matches!(u32::MAX.encode_at(&mut buf, 4), Err(Error::Codec(_))));

    let mut buf = [0u8; 6];
    assert_eq!([9u8, 8, 7, 6].encode_at(&mut buf, 1).unwrap(), 4);
    assert_eq!(buf, [0, 9, 8, 7, 6, 0]);
    assert_eq!(<[u8; 4] as Body>::decode(&[9, 8, 7, 6]).unwrap(), [9, 8, 7, 6]);
    assert!(matches!(<[u8; 4] as Body>::decode(&[9, 8, 7]), Err(Error::Codec(_))));

    assert_eq!(().encode_at(&mut buf, 6).unwrap(), 0);
    assert!(<() as Body>::decode(&[]).is_ok());
}
