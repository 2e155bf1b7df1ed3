use sectorsync::ids::{ClientId, StationId};
use sectorsync::packets::PeerAddress;
use sectorsync::udp_routes::{
    StationRouteError, UdpClientRoutes, UdpStationRoutes, UdpStationTransportStats,
};

const LOCALHOST: u32 = 0x7f00_0001;

fn address(port: u16) -> PeerAddress {
    PeerAddress::v4(LOCALHOST, port)
}

#[test]
fn station_routes_send_to_registered_addresses() {
    let mut routes = UdpStationRoutes::new(StationId::new(1));
    assert_eq!(routes.register_station(StationId::new(2), address(7002)), None);

    assert_eq!(
        routes.outbound(StationId::new(1), StationId::new(2)),
        Ok(address(7002))
    );
    routes.sent(5);
    assert_eq!(routes.inbound(address(7002), 3), Ok(StationId::new(2)));
    assert_eq!(
        routes.stats,
        UdpStationTransportStats {
            packets_sent: 1,
            packets_received: 1,
            bytes_sent: 5,
            bytes_received: 3,
        }
    );
}

#[test]
fn station_routes_refuse_strangers() {
    let mut routes = UdpStationRoutes::new(StationId::new(1));

    assert_eq!(
        routes.outbound(StationId::new(1), StationId::new(9)),
        Err(StationRouteError::UnknownStation(StationId::new(9)))
    );
    assert_eq!(
        routes.outbound(StationId::new(3), StationId::new(9)),
        Err(StationRouteError::LocalStationMismatch {
            local_station: StationId::new(1),
            packet_source: StationId::new(3),
        })
    );
    assert_eq!(
        routes.inbound(address(7009), 4),
        Err(StationRouteError::UnknownRemote(address(7009)))
    );
    assert_eq!(routes.stats, UdpStationTransportStats::default());
    assert_eq!(
        routes.check_target(StationId::new(2)),
        Err(StationRouteError::TargetStationMismatch {
            local_station: StationId::new(1),
            requested_target: StationId::new(2),
        })
    );
    assert_eq!(routes.check_target(StationId::new(1)), Ok(()));
}

#[test]
fn station_addresses_follow_the_last_registration() {
    let mut routes = UdpStationRoutes::new(StationId::new(1));
    routes.register_station(StationId::new(2), address(7002));
    assert_eq!(
        routes.register_station(StationId::new(2), address(7012)),
        Some(address(7002))
    );
    assert_eq!(routes.station_for_addr(address(7002)), None);
    assert_eq!(routes.station_for_addr(address(7012)), Some(StationId::new(2)));

    assert_eq!(routes.register_station(StationId::new(3), address(7012)), None);
    assert_eq!(routes.station_addr(StationId::new(2)), None);
    assert_eq!(routes.station_for_addr(address(7012)), Some(StationId::new(3)));

    assert_eq!(
        routes.unregister_station(StationId::new(3)),
        Some(address(7012))
    );
    assert_eq!(routes.unregister_station(StationId::new(3)), None);
    assert_eq!(routes.station_for_addr(address(7012)), None);
}

#[test]
fn client_addresses_follow_the_last_registration() {
    let mut routes = UdpClientRoutes::new();
    assert_eq!(routes.client_addr(ClientId::new(99)), None);
    assert_eq!(routes.register_client(ClientId::new(7), address(7007)), None);
    assert_eq!(routes.client_addr(ClientId::new(7)), Some(address(7007)));
    assert_eq!(routes.client_for_addr(address(7007)), Some(ClientId::new(7)));

    assert_eq!(routes.register_client(ClientId::new(8), address(7007)), None);
    assert_eq!(routes.client_addr(ClientId::new(7)), None);
    assert_eq!(
        routes.unregister_client(ClientId::new(8)),
        Some(address(7007))
    );
    assert_eq!(routes.client_for_addr(address(7007)), None);
}
